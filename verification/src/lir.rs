use vstd::prelude::*;
use crate::ast::{IdView, Identifier, Opcode};
use crate::error::CompileError;

verus! {

/// The number of a basic block, unique and dense within a function,
/// allocated by a per-program monotonic counter.
#[derive(Debug, Clone, Copy, PartialEq, Eq)]
pub struct BasicBlockId(pub usize);

impl BasicBlockId {
    /// The first block id.
    pub fn default() -> (r: Self)
        ensures
            r.0 == 0,
    {
        BasicBlockId(0)
    }

    pub fn get_value(&self) -> (r: usize)
        ensures
            r == self.0,
    {
        self.0
    }

    /// Return the current id and advance the counter.
    pub fn fetch_and_increment(&mut self) -> (r: BasicBlockId)
        requires
            old(self).0 < usize::MAX,
        ensures
            r.0 == old(self).0,
            final(self).0 == old(self).0 + 1,
    {
        let current = self.0;
        self.0 = self.0 + 1;
        BasicBlockId(current)
    }
}

/// A variable in the lowered form: the identifier it came from and
/// whether the lowering synthesized it.
#[derive(Debug, PartialEq)]
pub struct Variable {
    pub ident: Identifier,
    /// Was this variable generated by the compiler.
    pub generated: bool,
}

/// The mathematical view of a `Variable`.
pub struct VarView {
    pub ident: IdView,
    pub generated: bool,
}

impl View for Variable {
    type V = VarView;

    open spec fn view(&self) -> VarView {
        VarView { ident: self.ident@, generated: self.generated }
    }
}

impl Variable {
    pub fn new(ident: Identifier, generated: bool) -> (r: Self)
        ensures
            r@ == (VarView { ident: ident@, generated }),
    {
        Self { ident, generated }
    }

    pub fn get_ident(&self) -> (r: &Identifier)
        ensures
            r@ == self@.ident,
    {
        &self.ident
    }
}

/// An atomic operand of the lowered form.
#[derive(Debug, PartialEq)]
pub enum LoweredTerm {
    Constant(i64),
    Id(Variable),
}

/// The mathematical view of a `LoweredTerm`.
pub enum LTermView {
    Constant(i64),
    Id(VarView),
}

impl View for LoweredTerm {
    type V = LTermView;

    open spec fn view(&self) -> LTermView {
        match *self {
            LoweredTerm::Constant(n) => LTermView::Constant(n),
            LoweredTerm::Id(v) => LTermView::Id(v@),
        }
    }
}

/// An expression of the lowered form: terms, binary operations, and
/// calls whose arguments are lowered expressions.
#[derive(Debug, PartialEq)]
pub enum LoweredExpression {
    Term(LoweredTerm),
    Binary(Opcode, LoweredTerm, LoweredTerm),
    Call(Identifier, Vec<LoweredExpression>),
}

/// The mathematical view of a `LoweredExpression`.
pub enum LExprView {
    Term(LTermView),
    Binary(Opcode, LTermView, LTermView),
    Call(IdView, Seq<LExprView>),
}

impl View for LoweredExpression {
    type V = LExprView;

    open spec fn view(&self) -> LExprView
        decreases *self,
    {
        match *self {
            LoweredExpression::Term(t) => LExprView::Term(t@),
            LoweredExpression::Binary(op, a, b) => LExprView::Binary(op, a@, b@),
            LoweredExpression::Call(id, args) => LExprView::Call(id@, lexprs_view(args@)),
        }
    }
}

/// The views of a sequence of lowered expressions.
pub open spec fn lexprs_view(s: Seq<LoweredExpression>) -> Seq<LExprView>
    decreases s,
{
    if s.len() <= 0 {
        Seq::empty()
    } else {
        seq![s[0]@] + lexprs_view(s.skip(1))
    }
}

/// `lexprs_view` maps the view over the sequence, element by element.
pub broadcast proof fn lemma_lexprs_view(s: Seq<LoweredExpression>)
    ensures
        (#[trigger] lexprs_view(s)).len() == s.len(),
        forall|i: int| 0 <= i < s.len() ==> lexprs_view(s)[i] == s[i]@,
    decreases s,
{
    if s.len() > 0 {
        lemma_lexprs_view(s.skip(1));
        let h = seq![s[0]@];
        let t = lexprs_view(s.skip(1));
        assert(lexprs_view(s) == h + t);
        assert forall|i: int| 0 <= i < s.len() implies lexprs_view(s)[i] == s[i]@ by {
            if i == 0 {
                assert((h + t)[0] == h[0]);
            } else {
                assert((h + t)[i] == t[i - 1]);
                assert(s.skip(1)[i - 1] == s[i]);
            }
        }
    }
}

/// A statement of the lowered form.
#[derive(Debug, PartialEq)]
pub enum LoweredStatement {
    Definition(Variable, LoweredExpression),
    Assignment(Variable, LoweredExpression),
    Ret(LoweredExpression),
    RetVoid,
    /// Jump to the named block when the condition holds; the fall-through
    /// edge is the block's other successor.
    ConditionalJump(LoweredExpression, BasicBlockId),
    UnconditionalJump(BasicBlockId),
    Phi(Variable, Vec<Variable>),
}

/// The mathematical view of a `LoweredStatement`; block ids become
/// plain integers.
pub enum LStmtView {
    Definition(VarView, LExprView),
    Assignment(VarView, LExprView),
    Ret(LExprView),
    RetVoid,
    ConditionalJump(LExprView, int),
    UnconditionalJump(int),
    Phi(VarView, Seq<VarView>),
}

impl View for LoweredStatement {
    type V = LStmtView;

    open spec fn view(&self) -> LStmtView {
        match *self {
            LoweredStatement::Definition(v, e) => LStmtView::Definition(v@, e@),
            LoweredStatement::Assignment(v, e) => LStmtView::Assignment(v@, e@),
            LoweredStatement::Ret(e) => LStmtView::Ret(e@),
            LoweredStatement::RetVoid => LStmtView::RetVoid,
            LoweredStatement::ConditionalJump(e, b) => LStmtView::ConditionalJump(e@, b.0 as int),
            LoweredStatement::UnconditionalJump(b) => LStmtView::UnconditionalJump(b.0 as int),
            LoweredStatement::Phi(v, vs) => LStmtView::Phi(
                v@,
                vs@.map(|i: int, x: Variable| x@),
            ),
        }
    }
}

/// A basic block: a straight-line sequence of lowered statements and the
/// ids of its successor blocks.
#[derive(Debug, PartialEq)]
pub struct BasicBlock {
    pub id: BasicBlockId,
    pub statements: Vec<LoweredStatement>,
    pub next: Vec<BasicBlockId>,
}

/// The mathematical view of a `BasicBlock`.
pub struct BlockView {
    pub id: int,
    pub stmts: Seq<LStmtView>,
    pub next: Seq<int>,
}

impl View for BasicBlock {
    type V = BlockView;

    open spec fn view(&self) -> BlockView {
        BlockView {
            id: self.id.0 as int,
            stmts: self.statements@.map(|i: int, s: LoweredStatement| s@),
            next: self.next@.map(|i: int, b: BasicBlockId| b.0 as int),
        }
    }
}

impl BasicBlock {
    pub fn empty(id: BasicBlockId) -> (r: Self)
        ensures
            r@ == (BlockView { id: id.0 as int, stmts: Seq::empty(), next: Seq::empty() }),
    {
        let r = Self { id, statements: Vec::new(), next: Vec::new() };
        proof {
            assert(r@.stmts =~= Seq::<LStmtView>::empty());
            assert(r@.next =~= Seq::<int>::empty());
        }
        r
    }

    pub fn get_id(&self) -> (r: &BasicBlockId)
        ensures
            r.0 as int == self@.id,
    {
        &self.id
    }

    pub fn get_statements(&self) -> (r: &Vec<LoweredStatement>)
        ensures
            r@.map(|i: int, s: LoweredStatement| s@) == self@.stmts,
    {
        &self.statements
    }

    pub fn get_next(&self) -> (r: &Vec<BasicBlockId>)
        ensures
            r@.map(|i: int, b: BasicBlockId| b.0 as int) == self@.next,
    {
        &self.next
    }

    /// Append a lowered statement at the tail of the block.
    pub fn add_to_bottom(&mut self, stmt: LoweredStatement) -> (r: Result<(), CompileError>)
        ensures
            r is Ok,
            final(self)@.id == old(self)@.id,
            final(self)@.next == old(self)@.next,
            final(self)@.stmts == old(self)@.stmts.push(stmt@),
    {
        let ghost prev = self@.stmts;
        self.statements.push(stmt);
        proof {
            assert(final(self)@.stmts =~= prev.push(stmt@));
        }
        Ok(())
    }

    /// Record the given block id as a successor of this block.
    pub fn add_successor(&mut self, succ: &BasicBlockId)
        ensures
            final(self)@.id == old(self)@.id,
            final(self)@.stmts == old(self)@.stmts,
            final(self)@.next == old(self)@.next.push(succ.0 as int),
    {
        let ghost prev = self@.next;
        self.next.push(*succ);
        proof {
            assert(final(self)@.next =~= prev.push(succ.0 as int));
        }
    }
}

/// A lowered function: its name, its parameters, the id of its entry
/// block, and its blocks in creation order.
#[derive(Debug)]
pub struct LoweredFunction {
    pub id: Identifier,
    pub pars: Vec<Identifier>,
    pub entry: BasicBlockId,
    pub blocks: Vec<BasicBlock>,
}

/// The mathematical view of a `LoweredFunction`.
pub struct LFuncView {
    pub name: Seq<char>,
    pub pars: Seq<IdView>,
    pub entry: int,
    pub blocks: Seq<BlockView>,
}

impl View for LoweredFunction {
    type V = LFuncView;

    open spec fn view(&self) -> LFuncView {
        LFuncView {
            name: self.id.id@,
            pars: self.pars@.map(|i: int, p: Identifier| p@),
            entry: self.entry.0 as int,
            blocks: self.blocks@.map(|i: int, b: BasicBlock| b@),
        }
    }
}

impl LoweredFunction {
    pub fn new(
        id: Identifier,
        pars: Vec<Identifier>,
        entry: BasicBlockId,
        blocks: Vec<BasicBlock>,
    ) -> (r: Self)
        ensures
            r == (LoweredFunction { id, pars, entry, blocks }),
    {
        Self { id, pars, entry, blocks }
    }
}

/// The whole lowered program: a name and the lowered functions.
#[derive(Debug)]
pub struct LoweredProgram {
    name: String,
    entries: Vec<LoweredFunction>,
}

impl LoweredProgram {
    pub fn new(name: String, entries: Vec<LoweredFunction>) -> (r: Self)
        ensures
            r.spec_name() == name@,
            r.spec_entries() == entries@,
    {
        Self { name, entries }
    }

    pub closed spec fn spec_name(&self) -> Seq<char> {
        self.name@
    }

    pub closed spec fn spec_entries(&self) -> Seq<LoweredFunction> {
        self.entries@
    }

    pub fn get_name(&self) -> (r: &String)
        ensures
            r@ == self.spec_name(),
    {
        &self.name
    }

    pub fn get_entries(&self) -> (r: &Vec<LoweredFunction>)
        ensures
            r@ == self.spec_entries(),
    {
        &self.entries
    }
}

/// Every successor edge and every conditional-jump target in the
/// function names a block of the same function: the graph has no
/// dangling ids.
pub open spec fn block_id_in(blocks: Seq<BlockView>, id: int) -> bool {
    exists|k: int| 0 <= k < blocks.len() && blocks[k].id == id
}

pub open spec fn lfunc_wf(f: LFuncView) -> bool {
    &&& block_id_in(f.blocks, f.entry)
    &&& forall|k: int, e: int|
        0 <= k < f.blocks.len() && 0 <= e < f.blocks[k].next.len() ==> block_id_in(
            f.blocks,
            #[trigger] f.blocks[k].next[e],
        )
    &&& forall|k: int, j: int|
        0 <= k < f.blocks.len() && 0 <= j < f.blocks[k].stmts.len() ==> ((
        #[trigger] f.blocks[k].stmts[j]) matches LStmtView::ConditionalJump(_, t)
            ==> block_id_in(f.blocks, t))
    &&& forall|k: int, j: int|
        0 <= k < j < f.blocks.len() ==> (#[trigger] f.blocks[k].id) != (
        #[trigger] f.blocks[j].id)
}

} // verus!
