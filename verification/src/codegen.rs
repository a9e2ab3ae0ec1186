use vstd::prelude::*;
use crate::ast::{DataType, Expr, Func, Identifier, IdView, Program, Statement, Struct, Term,
    TyView, FieldView};
use crate::backend::{EBlock, EFunction, EInstr, EModule, EOp, EPred, EStruct, EType, EValue,
    call_ok, is_ret, is_terminator, module_calls_wf, no_terminators, ret_count};
use crate::error::{CompileError, ErrorKind};
use crate::symbol_table::{FunctionSignature, NameTable};

verus! {

/// The class of a value the code generator tracks.
#[derive(Debug, Clone, Copy, PartialEq, Eq)]
pub enum BasicValueType {
    Identifier,
    Int,
    Pointer,
    Function,
    Struct,
}

/// The code generator's handle to an emitted value: its class and the
/// operand it denotes.
#[derive(Debug, Clone, Copy, PartialEq, Eq)]
pub struct BasicValue {
    pub ty: BasicValueType,
    pub value: EValue,
}

/// All mutable state of a code-generation run: the module under
/// construction, the insertion point, the four name tables, and the
/// per-function expression stack.
#[derive(Debug)]
pub struct Codegen {
    pub module: EModule,
    /// Insertion point: function index and block index within it.
    pub cur_func: usize,
    pub cur_block: usize,
    /// Per-function symbol table: name to source identifier and value.
    pub symbol_table: NameTable<(Identifier, BasicValue)>,
    /// Name to signature and function index in the module.
    pub function_table: NameTable<(FunctionSignature, usize)>,
    /// Name to the entry block of the function: (function, block) index.
    pub block_table: NameTable<(usize, usize)>,
    /// Name to the source-level struct declaration.
    pub struct_table: NameTable<Struct>,
    /// Per-function expression stack, drained by consuming statements.
    pub expr_stack: Vec<BasicValue>,
}

// ---------------------------------------------------------------------
// Abstract views of the tables, for stating when emission succeeds.
// ---------------------------------------------------------------------

/// Name to (identifier view, value class) for every bound symbol.
pub open spec fn sym_state(cg: Codegen) -> Map<Seq<char>, (IdView, BasicValueType)> {
    Map::new(
        |n: Seq<char>| cg.symbol_table.spec_get(n) is Some,
        |n: Seq<char>|
            {
                let e = cg.symbol_table.spec_get(n).unwrap();
                (e.0@, e.1.ty)
            },
    )
}

/// Name to (arity, returns a value) for every declared function.
pub open spec fn fn_state(cg: Codegen) -> Map<Seq<char>, (int, bool)> {
    Map::new(
        |n: Seq<char>| cg.function_table.spec_get(n) is Some,
        |n: Seq<char>|
            {
                let e = cg.function_table.spec_get(n).unwrap();
                (e.0.spec_args_ty().len() as int, e.0.spec_ret_ty() is Some)
            },
    )
}

/// Name to ordered field views for every registered struct.
pub open spec fn struct_state(cg: Codegen) -> Map<Seq<char>, Seq<FieldView>> {
    Map::new(
        |n: Seq<char>| cg.struct_table.spec_get(n) is Some,
        |n: Seq<char>| cg.struct_table.spec_get(n).unwrap()@.fields,
    )
}

/// The first field with the given name, as `get_id_by_field_name` finds it.
pub open spec fn field_index(fields: Seq<FieldView>, name: Seq<char>) -> Option<int>
    decreases fields,
{
    if fields.len() <= 0 {
        None
    } else if fields[0].name == name {
        Some(0int)
    } else {
        match field_index(fields.skip(1), name) {
            Some(i) => Some(i + 1),
            None => None,
        }
    }
}

/// A field-access chain resolves step by step through the registered
/// structs, starting from the struct named `sname`.
pub open spec fn chain_ok(
    chain: Seq<Seq<char>>,
    sname: Seq<char>,
    sts: Map<Seq<char>, Seq<FieldView>>,
) -> bool
    decreases chain.len(),
{
    if chain.len() == 0 {
        true
    } else if !sts.dom().contains(sname) {
        false
    } else {
        let fields = sts[sname];
        match field_index(fields, chain[0]) {
            None => false,
            Some(ix) => if chain.len() == 1 {
                true
            } else {
                match fields[ix].ty {
                    TyView::StructTy(next) => chain_ok(chain.skip(1), next, sts),
                    TyView::IntTy => false,
                }
            },
        }
    }
}

/// A named reference with a (possibly empty) field chain resolves: the
/// base name is bound, and a chain walks pointer-to-struct fields of
/// the bound identifier's declared type.
pub open spec fn ref_ok(
    name: Seq<char>,
    chain: Seq<Seq<char>>,
    sym: Map<Seq<char>, (IdView, BasicValueType)>,
    sts: Map<Seq<char>, Seq<FieldView>>,
) -> bool {
    if !sym.dom().contains(name) {
        false
    } else if chain.len() == 0 {
        true
    } else {
        let (bind, bvt) = sym[name];
        bvt is Pointer && (match bind.ty {
            Some(TyView::StructTy(sn)) => chain_ok(chain, sn, sts),
            _ => false,
        })
    }
}

/// A reference to a (possibly field-accessed) identifier resolves.
pub open spec fn id_ref_ok(
    id: IdView,
    sym: Map<Seq<char>, (IdView, BasicValueType)>,
    sts: Map<Seq<char>, Seq<FieldView>>,
) -> bool {
    ref_ok(id.name, id.chain, sym, sts)
}

/// The opcodes the backend can emit.
pub open spec fn op_supported(op: crate::ast::Opcode) -> bool {
    match op {
        crate::ast::Opcode::Add => true,
        crate::ast::Opcode::Sub => true,
        crate::ast::Opcode::Mul => true,
        crate::ast::Opcode::Div => true,
        crate::ast::Opcode::Or => true,
        crate::ast::Opcode::Cmp => true,
        crate::ast::Opcode::Geq => true,
        _ => false,
    }
}

pub open spec fn term_ok(
    t: Term,
    sym: Map<Seq<char>, (IdView, BasicValueType)>,
    sts: Map<Seq<char>, Seq<FieldView>>,
) -> bool {
    match t {
        Term::Num(_) => true,
        Term::Id(id) => id_ref_ok(id@, sym, sts),
        Term::Object(o, f) => ref_ok(
            o.id@,
            seq![f.id@] + crate::ast::chain_of(f),
            sym,
            sts,
        ),
    }
}

/// How many values evaluating the expression leaves on the stack: a
/// call to a void function leaves none, everything else leaves one.
pub open spec fn expr_pushes(e: Expr, ft: Map<Seq<char>, (int, bool)>) -> int {
    match e {
        Expr::Call(id, _) => if ft.dom().contains(id.id@) && !ft[id.id@].1 {
            0
        } else {
            1
        },
        _ => 1,
    }
}

/// When emitting an expression succeeds: every referenced name is
/// bound, every called function is declared with matching arity, every
/// argument leaves a value, and the operator is in the emitted alphabet.
pub open spec fn expr_ok(
    e: Expr,
    sym: Map<Seq<char>, (IdView, BasicValueType)>,
    ft: Map<Seq<char>, (int, bool)>,
    sts: Map<Seq<char>, Seq<FieldView>>,
) -> bool
    decreases e,
{
    match e {
        Expr::Num(_) => true,
        Expr::Id(id) => id_ref_ok(id@, sym, sts),
        Expr::Struct(t) => sts.dom().contains(t.id@),
        Expr::Term(t) => term_ok(*t, sym, sts),
        Expr::Binary(op, a, b) => op_supported(op) && term_ok(*a, sym, sts) && term_ok(
            *b,
            sym,
            sts,
        ),
        Expr::Call(id, args) => ft.dom().contains(id.id@) && ft[id.id@].0 == args@.len() && (
        forall|i: int|
            0 <= i < args@.len() ==> expr_ok(#[trigger] args@[i], sym, ft, sts) && expr_pushes(
                args@[i],
                ft,
            ) == 1),
    }
}

// ---------------------------------------------------------------------
// Shape predicates relating an old and a new code-generator state.
// ---------------------------------------------------------------------

impl Codegen {
    /// The insertion point names a real block.
    pub open spec fn pos_wf(&self) -> bool {
        self.cur_func < self.module.functions@.len() && self.cur_block
            < self.module.functions@[self.cur_func as int].blocks@.len()
    }

    /// The instructions of the block the builder points at.
    pub open spec fn cur_instrs(&self) -> Seq<EInstr> {
        self.module.functions@[self.cur_func as int].blocks@[self.cur_block as int].instrs@
    }

    /// Every function-table entry names a module function of the same
    /// name and arity.
    pub open spec fn funcs_wf(&self) -> bool {
        forall|n: Seq<char>|
            (#[trigger] self.function_table.spec_get(n)) matches Some(e) ==> e.1
                < self.module.functions@.len() && self.module.functions@[e.1 as int].name@ == n
                && self.module.functions@[e.1 as int].params@.len() == e.0.spec_args_ty().len()
                && ((self.module.functions@[e.1 as int].ret is Some) <==> (e.0.spec_ret_ty()
                is Some))
    }

    /// Every block-table entry names a real block.
    pub open spec fn blocks_wf(&self) -> bool {
        forall|n: Seq<char>|
            (#[trigger] self.block_table.spec_get(n)) matches Some(e) ==> e.0
                < self.module.functions@.len() && e.1
                < self.module.functions@[e.0 as int].blocks@.len()
    }

    pub open spec fn wf(&self) -> bool {
        self.funcs_wf() && self.blocks_wf() && module_calls_wf(self.module)
    }

    /// The four name tables are those of `other`.
    pub open spec fn same_tables(&self, other: &Codegen) -> bool {
        &&& self.symbol_table == other.symbol_table
        &&& self.function_table == other.function_table
        &&& self.block_table == other.block_table
        &&& self.struct_table == other.struct_table
    }

    /// Only the block the builder points at changed, and it only grew.
    pub open spec fn only_cur_block_grew(&self, new: &Codegen) -> bool {
        &&& new.cur_func == self.cur_func
        &&& new.cur_block == self.cur_block
        &&& new.module.name == self.module.name
        &&& new.module.target == self.module.target
        &&& new.module.structs == self.module.structs
        &&& new.module.functions@.len() == self.module.functions@.len()
        &&& forall|k: int|
            0 <= k < self.module.functions@.len() && k != self.cur_func
                ==> new.module.functions@[k] == self.module.functions@[k]
        &&& new.module.functions@[self.cur_func as int].name
            == self.module.functions@[self.cur_func as int].name
        &&& new.module.functions@[self.cur_func as int].params
            == self.module.functions@[self.cur_func as int].params
        &&& new.module.functions@[self.cur_func as int].ret
            == self.module.functions@[self.cur_func as int].ret
        &&& new.module.functions@[self.cur_func as int].blocks@.len()
            == self.module.functions@[self.cur_func as int].blocks@.len()
        &&& forall|b: int|
            0 <= b < self.module.functions@[self.cur_func as int].blocks@.len() && b
                != self.cur_block ==> new.module.functions@[self.cur_func as int].blocks@[b]
                == self.module.functions@[self.cur_func as int].blocks@[b]
        &&& new.module.functions@[self.cur_func as int].blocks@[self.cur_block as int].label
            == self.module.functions@[self.cur_func as int].blocks@[self.cur_block as int].label
        &&& new.cur_instrs().len() >= self.cur_instrs().len()
        &&& new.cur_instrs().subrange(0, self.cur_instrs().len() as int) == self.cur_instrs()
    }

    /// What the current block gained, when only it grew.
    pub open spec fn appended(&self, new: &Codegen) -> Seq<EInstr> {
        new.cur_instrs().skip(self.cur_instrs().len() as int)
    }

    pub fn new(module: EModule) -> (r: Codegen)
        ensures
            r.module == module,
            r.cur_func == 0usize && r.cur_block == 0usize,
            r.symbol_table.spec_len() == 0 && (forall|n: Seq<char>|
                r.symbol_table.spec_get(n) is None),
            r.function_table.spec_len() == 0 && (forall|n: Seq<char>|
                r.function_table.spec_get(n) is None),
            r.block_table.spec_len() == 0 && (forall|n: Seq<char>|
                r.block_table.spec_get(n) is None),
            r.struct_table.spec_len() == 0 && (forall|n: Seq<char>|
                r.struct_table.spec_get(n) is None),
            r.expr_stack@.len() == 0,
    {
        Codegen {
            module,
            cur_func: 0,
            cur_block: 0,
            symbol_table: NameTable::new(),
            function_table: NameTable::new(),
            block_table: NameTable::new(),
            struct_table: NameTable::new(),
            expr_stack: Vec::new(),
        }
    }

    /// Drop whatever the last statement left on the expression stack.
    pub fn clear_expr_table(&mut self) -> (r: Result<(), CompileError>)
        ensures
            r is Ok,
            final(self).expr_stack@.len() == 0,
            final(self).module == old(self).module,
            final(self).cur_func == old(self).cur_func,
            final(self).cur_block == old(self).cur_block,
            final(self).same_tables(old(self)),
    {
        self.expr_stack.clear();
        Ok(())
    }

    /// Append one instruction at the insertion point.
    pub fn emit(&mut self, instr: EInstr)
        requires
            old(self).pos_wf(),
        ensures
            old(self).only_cur_block_grew(final(self)),
            final(self).cur_instrs() == old(self).cur_instrs().push(instr),
            old(self).appended(final(self)) =~= seq![instr],
            final(self).pos_wf(),
            final(self).same_tables(old(self)),
            final(self).expr_stack == old(self).expr_stack,
    {
        let f = self.cur_func;
        let b = self.cur_block;
        let func = &mut self.module.functions[f];
        let block = &mut func.blocks[b];
        block.instrs.push(instr);
        proof {
            assert(final(self).cur_instrs().subrange(
                0,
                old(self).cur_instrs().len() as int,
            ) =~= old(self).cur_instrs());
        }
    }

    /// Append a fresh, empty block to the current function and return
    /// its index.  The insertion point does not move.
    pub fn append_block(&mut self, label: String) -> (r: usize)
        requires
            old(self).cur_func < old(self).module.functions@.len(),
        ensures
            r == old(self).module.functions@[old(self).cur_func as int].blocks@.len(),
            final(self).cur_func == old(self).cur_func,
            final(self).cur_block == old(self).cur_block,
            final(self).module.name == old(self).module.name,
            final(self).module.target == old(self).module.target,
            final(self).module.structs == old(self).module.structs,
            final(self).module.functions@.len() == old(self).module.functions@.len(),
            forall|k: int|
                0 <= k < old(self).module.functions@.len() && k != old(self).cur_func ==> final(self).module.functions@[k] == old(self).module.functions@[k],
            final(self).module.functions@[old(self).cur_func as int].name == old(self).module.functions@[old(self).cur_func as int].name,
            final(self).module.functions@[old(self).cur_func as int].params == old(self).module.functions@[old(self).cur_func as int].params,
            final(self).module.functions@[old(self).cur_func as int].ret == old(self).module.functions@[old(self).cur_func as int].ret,
            final(self).module.functions@[old(self).cur_func as int].blocks@.len() == old(
                self,
            ).module.functions@[old(self).cur_func as int].blocks@.len() + 1,
            final(self).module.functions@[old(self).cur_func as int].blocks@.subrange(
                0,
                old(self).module.functions@[old(self).cur_func as int].blocks@.len() as int,
            ) == old(self).module.functions@[old(self).cur_func as int].blocks@,
            final(self).module.functions@[old(self).cur_func as int].blocks@.last().label
                == label,
            final(self).module.functions@[old(self).cur_func as int].blocks@.last().instrs@
                == Seq::<EInstr>::empty(),
            final(self).same_tables(old(self)),
            final(self).expr_stack == old(self).expr_stack,
    {
        let f = self.cur_func;
        let func = &mut self.module.functions[f];
        let r = func.blocks.len();
        func.blocks.push(EBlock { label, instrs: Vec::new() });
        r
    }

    /// Pop the most recent value from the expression stack.
    pub fn pop_value(&mut self) -> (r: Option<BasicValue>)
        ensures
            final(self).module == old(self).module,
            final(self).cur_func == old(self).cur_func,
            final(self).cur_block == old(self).cur_block,
            final(self).same_tables(old(self)),
            match r {
                Some(v) => old(self).expr_stack@.len() > 0 && v == old(self).expr_stack@.last()
                    && final(self).expr_stack@ == old(self).expr_stack@.drop_last(),
                None => old(self).expr_stack@.len() == 0 && final(self).expr_stack@ == old(
                    self,
                ).expr_stack@,
            },
    {
        self.expr_stack.pop()
    }

    /// Push a value on the expression stack.
    pub fn push_value(&mut self, v: BasicValue)
        ensures
            final(self).module == old(self).module,
            final(self).cur_func == old(self).cur_func,
            final(self).cur_block == old(self).cur_block,
            final(self).same_tables(old(self)),
            final(self).expr_stack@ == old(self).expr_stack@.push(v),
    {
        self.expr_stack.push(v);
    }
}


// ---------------------------------------------------------------------
// Success conditions for statements, threading the symbol bindings.
// ---------------------------------------------------------------------

/// When storing through a (possibly field-accessed) identifier succeeds:
/// the base is a bound pointer, and a chain walks struct fields.
pub open spec fn assign_ok(
    id: IdView,
    sym: Map<Seq<char>, (IdView, BasicValueType)>,
    sts: Map<Seq<char>, Seq<FieldView>>,
) -> bool {
    &&& sym.dom().contains(id.name)
    &&& sym[id.name].1 is Pointer
    &&& ref_ok(id.name, id.chain, sym, sts)
}

/// The symbol bindings after one statement: a definition binds its name
/// to a pointer slot; a conditional's branch bodies bind in order into
/// the same per-function table.
pub open spec fn stmt_sym_after(
    s: Statement,
    sym: Map<Seq<char>, (IdView, BasicValueType)>,
) -> Map<Seq<char>, (IdView, BasicValueType)>
    decreases s, 1int,
{
    match s {
        Statement::Definition(id, _) => sym.insert(id.id@, (id@, BasicValueType::Pointer)),
        Statement::Conditional(_, t, els) => {
            let after_then = stmts_sym_after(t@, sym);
            match els {
                Some(v) => stmts_sym_after(v@, after_then),
                None => after_then,
            }
        },
        _ => sym,
    }
}

pub open spec fn stmts_sym_after(
    ss: Seq<Statement>,
    sym: Map<Seq<char>, (IdView, BasicValueType)>,
) -> Map<Seq<char>, (IdView, BasicValueType)>
    decreases ss, 0int,
{
    if ss.len() <= 0 {
        sym
    } else {
        stmts_sym_after(ss.skip(1), stmt_sym_after(ss[0], sym))
    }
}

/// When emitting one statement succeeds, given the current bindings.
pub open spec fn stmt_emit_ok(
    s: Statement,
    sym: Map<Seq<char>, (IdView, BasicValueType)>,
    ft: Map<Seq<char>, (int, bool)>,
    sts: Map<Seq<char>, Seq<FieldView>>,
) -> bool
    decreases s, 1int,
{
    match s {
        Statement::RetVoid => true,
        Statement::Ret(e) => expr_ok(e, sym, ft, sts) && expr_pushes(e, ft) == 1,
        Statement::Definition(id, e) => expr_ok(e, sym, ft, sts) && expr_pushes(e, ft) == 1
            && !sym.dom().contains(id.id@),
        Statement::Assign(id, e) => expr_ok(e, sym, ft, sts) && expr_pushes(e, ft) == 1
            && assign_ok(id@, sym, sts),
        Statement::Conditional(c, t, els) => expr_ok(c, sym, ft, sts) && expr_pushes(c, ft) == 1
            && stmts_emit_ok(t@, sym, ft, sts) && (match els {
            Some(v) => stmts_emit_ok(v@, stmts_sym_after(t@, sym), ft, sts),
            None => true,
        }),
    }
}

pub open spec fn stmts_emit_ok(
    ss: Seq<Statement>,
    sym: Map<Seq<char>, (IdView, BasicValueType)>,
    ft: Map<Seq<char>, (int, bool)>,
    sts: Map<Seq<char>, Seq<FieldView>>,
) -> bool
    decreases ss, 0int,
{
    if ss.len() <= 0 {
        true
    } else {
        stmt_emit_ok(ss[0], sym, ft, sts) && stmts_emit_ok(
            ss.skip(1),
            stmt_sym_after(ss[0], sym),
            ft,
            sts,
        )
    }
}



// ---------------------------------------------------------------------
// What emission produces: relations pinning the appended instructions
// and the value left on the expression stack for each node shape.  The
// numbering of result registers is the only freedom left open; the
// design fixes it as observable but not meaningful.
// ---------------------------------------------------------------------

/// The backend arithmetic operator a source opcode emits.
pub open spec fn eop_of(op: crate::ast::Opcode) -> Option<EOp> {
    match op {
        crate::ast::Opcode::Add => Some(EOp::Add),
        crate::ast::Opcode::Sub => Some(EOp::Sub),
        crate::ast::Opcode::Mul => Some(EOp::Mul),
        crate::ast::Opcode::Div => Some(EOp::Div),
        crate::ast::Opcode::Or => Some(EOp::Or),
        _ => None,
    }
}

/// The backend comparison predicate a source opcode emits.
pub open spec fn epred_of(op: crate::ast::Opcode) -> Option<EPred> {
    match op {
        crate::ast::Opcode::Cmp => Some(EPred::Eq),
        crate::ast::Opcode::Geq => Some(EPred::Sge),
        _ => None,
    }
}

/// `instrs` walks the field chain from the pointer `base` through the
/// struct named `sname`: one element-pointer instruction per link, each
/// addressing the first field of that name, and `out` is the pointer to
/// the innermost field.
pub open spec fn gep_chain(
    instrs: Seq<EInstr>,
    base: EValue,
    chain: Seq<Seq<char>>,
    sname: Seq<char>,
    sts: Map<Seq<char>, Seq<FieldView>>,
    out: EValue,
) -> bool
    decreases chain.len(),
{
    if chain.len() == 0 {
        instrs.len() == 0 && out == base
    } else {
        &&& sts.dom().contains(sname)
        &&& field_index(sts[sname], chain[0]) is Some
        &&& instrs.len() >= 1
        &&& (instrs[0] matches EInstr::GetElementPtr { dst, ty, base: b, field } && b == base
            && field == field_index(sts[sname], chain[0]).unwrap() && (ty matches
        EType::StructTy(n) && n@ == sname) && (if chain.len() == 1 {
            instrs.len() == 1 && out == EValue::Reg(dst)
        } else {
            match sts[sname][field_index(sts[sname], chain[0]).unwrap()].ty {
                TyView::StructTy(next) => gep_chain(
                    instrs.skip(1),
                    EValue::Reg(dst),
                    chain.skip(1),
                    next,
                    sts,
                    out,
                ),
                TyView::IntTy => false,
            }
        }))
    }
}

/// Reading the named reference bound to `entry` appends exactly these
/// instructions and pushes exactly this value: a bound pointer is
/// loaded, a direct value (the parameter fast path) is pushed as is, and
/// a field chain walks element pointers and loads the innermost field.
pub open spec fn emits_ref(
    chain: Seq<Seq<char>>,
    entry: (Identifier, BasicValue),
    sts: Map<Seq<char>, Seq<FieldView>>,
    appended: Seq<EInstr>,
    pushed: BasicValue,
) -> bool {
    let bound = entry.1;
    if chain.len() == 0 {
        if bound.ty is Pointer {
            appended.len() == 1 && (appended[0] matches EInstr::Load { dst, ptr } && ptr
                == bound.value && pushed == (BasicValue {
                ty: BasicValueType::Int,
                value: EValue::Reg(dst),
            }))
        } else {
            appended.len() == 0 && pushed == bound
        }
    } else {
        &&& bound.ty is Pointer
        &&& (entry.0@.ty matches Some(TyView::StructTy(sn)) && appended.len() >= 1 && (
        appended.last() matches EInstr::Load { dst, ptr } && gep_chain(
            appended.drop_last(),
            bound.value,
            chain,
            sn,
            sts,
            ptr,
        ) && pushed == (BasicValue { ty: BasicValueType::Int, value: EValue::Reg(dst) })))
    }
}

/// Emitting an atomic operand: a literal pushes its constant and appends
/// nothing; a reference follows `emits_ref` under its table entry.
pub open spec fn emits_term(
    t: Term,
    sym: NameTable<(Identifier, BasicValue)>,
    sts: Map<Seq<char>, Seq<FieldView>>,
    appended: Seq<EInstr>,
    pushed: BasicValue,
) -> bool {
    match t {
        Term::Num(n) => appended.len() == 0 && pushed == (BasicValue {
            ty: BasicValueType::Int,
            value: EValue::ConstInt(n),
        }),
        Term::Id(id) => sym.spec_get(id.id@) is Some && emits_ref(
            id@.chain,
            sym.spec_get(id.id@).unwrap(),
            sts,
            appended,
            pushed,
        ),
        Term::Object(o, f) => sym.spec_get(o.id@) is Some && emits_ref(
            seq![f.id@] + crate::ast::chain_of(f),
            sym.spec_get(o.id@).unwrap(),
            sts,
            appended,
            pushed,
        ),
    }
}

/// Emitting the argument list of a call, in source order: the appended
/// instructions split into one segment per argument and `vals` are the
/// values each left on the stack.
pub open spec fn emits_args(
    args: Seq<Expr>,
    sym: NameTable<(Identifier, BasicValue)>,
    ft: NameTable<(FunctionSignature, usize)>,
    sts: Map<Seq<char>, Seq<FieldView>>,
    appended: Seq<EInstr>,
    vals: Seq<BasicValue>,
) -> bool
    decreases args,
{
    if args.len() == 0 {
        appended.len() == 0 && vals.len() == 0
    } else {
        vals.len() == args.len() && (exists|k: int|
            0 <= k <= appended.len() && emits_args(
                args.drop_last(),
                sym,
                ft,
                sts,
                #[trigger] appended.subrange(0, k),
                vals.drop_last(),
            ) && emits_expr(
                args.last(),
                sym,
                ft,
                sts,
                appended.subrange(k, appended.len() as int),
                seq![vals.last()],
            ))
    }
}

/// Emitting an expression: what is appended at the insertion point and
/// what lands on the expression stack, per node shape.
pub open spec fn emits_expr(
    e: Expr,
    sym: NameTable<(Identifier, BasicValue)>,
    ft: NameTable<(FunctionSignature, usize)>,
    sts: Map<Seq<char>, Seq<FieldView>>,
    appended: Seq<EInstr>,
    pushed: Seq<BasicValue>,
) -> bool
    decreases e,
{
    match e {
        Expr::Num(n) => appended.len() == 0 && pushed.len() == 1 && pushed[0] == (BasicValue {
            ty: BasicValueType::Int,
            value: EValue::ConstInt(n),
        }),
        Expr::Id(id) => pushed.len() == 1 && sym.spec_get(id.id@) is Some && emits_ref(
            id@.chain,
            sym.spec_get(id.id@).unwrap(),
            sts,
            appended,
            pushed[0],
        ),
        Expr::Struct(t) => {
            &&& pushed.len() == 1
            &&& appended.len() == 1
            &&& (appended[0] matches EInstr::Alloca { dst, ty } && (ty matches EType::StructTy(
                n,
            ) && n@ == t.id@) && pushed[0] == (BasicValue {
                ty: BasicValueType::Pointer,
                value: EValue::Reg(dst),
            }))
        },
        Expr::Term(t) => pushed.len() == 1 && emits_term(*t, sym, sts, appended, pushed[0]),
        Expr::Binary(op, a, b) => pushed.len() == 1 && (exists|k1: int, k2: int|
            0 <= k1 <= k2 && k2 == appended.len() - 1 && (exists|v1: BasicValue, v2: BasicValue|
                emits_term(*a, sym, sts, #[trigger] appended.subrange(0, k1), v1) && emits_term(
                    *b,
                    sym,
                    sts,
                    #[trigger] appended.subrange(k1, k2),
                    v2,
                ) && (match eop_of(op) {
                    Some(eop) => appended.last() matches EInstr::BinOp {
                        dst,
                        op: o,
                        a: x,
                        b: y,
                    } && o == eop && x == v1.value && y == v2.value && pushed[0] == (BasicValue {
                        ty: BasicValueType::Int,
                        value: EValue::Reg(dst),
                    }),
                    None => match epred_of(op) {
                        Some(ep) => appended.last() matches EInstr::ICmp {
                            dst,
                            pred,
                            a: x,
                            b: y,
                        } && pred == ep && x == v1.value && y == v2.value && pushed[0]
                            == (BasicValue {
                            ty: BasicValueType::Int,
                            value: EValue::Reg(dst),
                        }),
                        None => false,
                    },
                }))),
        Expr::Call(id, args) => {
            &&& ft.spec_get(id.id@) is Some
            &&& appended.len() >= 1
            &&& (exists|vals: Seq<BasicValue>|
                (#[trigger] vals.len()) >= 0 && emits_args(
                    args@,
                    sym,
                    ft,
                    sts,
                    appended.drop_last(),
                    vals,
                ) && (
                appended.last() matches EInstr::Call { dst, callee, args: argv } && callee@
                    == id.id@ && argv@.len() == vals.len() && (forall|j: int|
                    0 <= j < vals.len() ==> argv@[j] == vals[j].value) && (match ft.spec_get(
                    id.id@,
                ).unwrap().0.spec_ret_ty() {
                    Some(rt) => dst is Some && pushed.len() == 1 && pushed[0] == (BasicValue {
                        ty: match rt {
                            DataType::Int => BasicValueType::Int,
                            DataType::Struct(_) => BasicValueType::Struct,
                        },
                        value: EValue::Reg(dst.unwrap()),
                    }),
                    None => dst is None && pushed.len() == 0,
                })))
        },
    }
}


/// Extend an argument-emission record by one more argument.
pub proof fn lemma_emits_args_step(
    args: Seq<Expr>,
    sym: NameTable<(Identifier, BasicValue)>,
    ft: NameTable<(FunctionSignature, usize)>,
    sts: Map<Seq<char>, Seq<FieldView>>,
    appended: Seq<EInstr>,
    vals: Seq<BasicValue>,
    k: int,
)
    requires
        args.len() >= 1,
        vals.len() == args.len(),
        0 <= k <= appended.len(),
        emits_args(args.drop_last(), sym, ft, sts, appended.subrange(0, k), vals.drop_last()),
        emits_expr(
            args.last(),
            sym,
            ft,
            sts,
            appended.subrange(k, appended.len() as int),
            seq![vals.last()],
        ),
    ensures
        emits_args(args, sym, ft, sts, appended, vals),
{
}

/// Assemble the emission record of a binary operation from its parts.
pub proof fn lemma_emits_binary_intro(
    e: Expr,
    sym: NameTable<(Identifier, BasicValue)>,
    ft: NameTable<(FunctionSignature, usize)>,
    sts: Map<Seq<char>, Seq<FieldView>>,
    appended: Seq<EInstr>,
    pushed: Seq<BasicValue>,
    k1: int,
    v1: BasicValue,
    v2: BasicValue,
)
    requires
        e matches Expr::Binary(op, a, b) && 0 <= k1 <= appended.len() - 1 && emits_term(
            *a,
            sym,
            sts,
            appended.subrange(0, k1),
            v1,
        ) && emits_term(*b, sym, sts, appended.subrange(k1, appended.len() - 1), v2) && (match
        eop_of(op) {
            Some(eop) => appended.last() matches EInstr::BinOp { dst, op: o, a: x, b: y } && o
                == eop && x == v1.value && y == v2.value && pushed =~= seq![
                BasicValue { ty: BasicValueType::Int, value: EValue::Reg(dst) },
            ],
            None => match epred_of(op) {
                Some(ep) => appended.last() matches EInstr::ICmp { dst, pred, a: x, b: y }
                    && pred == ep && x == v1.value && y == v2.value && pushed =~= seq![
                    BasicValue { ty: BasicValueType::Int, value: EValue::Reg(dst) },
                ],
                None => false,
            },
        }),
    ensures
        emits_expr(e, sym, ft, sts, appended, pushed),
{
}

/// Assemble the emission record of a call from its parts.
#[verifier::spinoff_prover]
#[verifier::rlimit(100)]
pub proof fn lemma_emits_call_intro(
    e: Expr,
    sym: NameTable<(Identifier, BasicValue)>,
    ft: NameTable<(FunctionSignature, usize)>,
    sts: Map<Seq<char>, Seq<FieldView>>,
    appended: Seq<EInstr>,
    pushed: Seq<BasicValue>,
    vals: Seq<BasicValue>,
)
    requires
        e matches Expr::Call(id, args) && ft.spec_get(id.id@) is Some && appended.len() >= 1
            && emits_args(args@, sym, ft, sts, appended.drop_last(), vals) && (appended.last()
            matches EInstr::Call { dst, callee, args: argv } && callee@ == id.id@ && argv@.len()
            == vals.len() && (forall|j: int| 0 <= j < vals.len() ==> argv@[j] == vals[j].value)
            && (match ft.spec_get(id.id@).unwrap().0.spec_ret_ty() {
            Some(rt) => dst is Some && pushed =~= seq![
                BasicValue {
                    ty: match rt {
                        DataType::Int => BasicValueType::Int,
                        DataType::Struct(_) => BasicValueType::Struct,
                    },
                    value: EValue::Reg(dst.unwrap()),
                },
            ],
            None => dst is None && pushed.len() == 0,
        })),
    ensures
        emits_expr(e, sym, ft, sts, appended, pushed),
{
    match e {
        Expr::Call(id, args) => {
            assert(vals.len() >= 0);
            assert(emits_args(args@, sym, ft, sts, appended.drop_last(), vals));
        },
        _ => {},
    }
}

// ---------------------------------------------------------------------
// Frame predicates for the emitting methods.
// ---------------------------------------------------------------------

/// What any expression-level emission preserves: only the current block
/// grows, with no terminators, and the tables stay.
pub open spec fn expr_frame(old: Codegen, new: Codegen) -> bool {
    &&& old.only_cur_block_grew(&new)
    &&& new.same_tables(&old)
    &&& no_terminators(old.appended(&new))
    &&& (old.wf() ==> new.wf())
}

/// What any statement-level emission preserves: the current function may
/// gain blocks, other functions and the tables (except the symbol
/// table) stay, and the insertion point stays or moves into the new
/// blocks.
pub open spec fn stmt_frame(old: Codegen, new: Codegen) -> bool {
    &&& new.cur_func == old.cur_func
    &&& new.module.name == old.module.name
    &&& new.module.target == old.module.target
    &&& new.module.structs == old.module.structs
    &&& new.module.functions@.len() == old.module.functions@.len()
    &&& forall|k: int|
        0 <= k < old.module.functions@.len() && k != old.cur_func
            ==> new.module.functions@[k] == old.module.functions@[k]
    &&& new.module.functions@[old.cur_func as int].name
        == old.module.functions@[old.cur_func as int].name
    &&& new.module.functions@[old.cur_func as int].params
        == old.module.functions@[old.cur_func as int].params
    &&& new.module.functions@[old.cur_func as int].ret
        == old.module.functions@[old.cur_func as int].ret
    &&& new.module.functions@[old.cur_func as int].blocks@.len()
        >= old.module.functions@[old.cur_func as int].blocks@.len()
    &&& forall|b: int|
        0 <= b < old.module.functions@[old.cur_func as int].blocks@.len() && b != old.cur_block
            ==> new.module.functions@[old.cur_func as int].blocks@[b]
            == old.module.functions@[old.cur_func as int].blocks@[b]
    &&& new.module.functions@[old.cur_func as int].blocks@[old.cur_block as int].label
        == old.module.functions@[old.cur_func as int].blocks@[old.cur_block as int].label
    &&& new.module.functions@[old.cur_func as int].blocks@[old.cur_block as int].instrs@.len()
        >= old.cur_instrs().len()
    &&& new.module.functions@[old.cur_func as int].blocks@[old.cur_block as int].instrs@.subrange(
        0,
        old.cur_instrs().len() as int,
    ) == old.cur_instrs()
    &&& (new.cur_block == old.cur_block || new.cur_block
        >= old.module.functions@[old.cur_func as int].blocks@.len())
    &&& new.cur_block < new.module.functions@[old.cur_func as int].blocks@.len()
    &&& new.function_table == old.function_table
    &&& new.block_table == old.block_table
    &&& new.struct_table == old.struct_table
    &&& (old.wf() ==> new.wf())
}

/// The statement frame composes.
pub proof fn lemma_stmt_frame_trans(a: Codegen, b: Codegen, c: Codegen)
    requires
        a.pos_wf(),
        stmt_frame(a, b),
        stmt_frame(b, c),
    ensures
        stmt_frame(a, c),
{
    let f = a.cur_func as int;
    let albs = a.module.functions@[f].blocks@;
    let blbs = b.module.functions@[f].blocks@;
    let clbs = c.module.functions@[f].blocks@;
    assert forall|bb: int|
        0 <= bb < albs.len() && bb != a.cur_block implies clbs[bb] == albs[bb] by {
        if bb != b.cur_block {
            assert(blbs[bb] == albs[bb]);
            assert(clbs[bb] == blbs[bb]);
        } else {
            assert(b.cur_block == bb);
            assert(bb < albs.len());
            assert(b.cur_block == a.cur_block || b.cur_block >= albs.len());
            assert(false);
        }
    }
    if b.cur_block == a.cur_block {
        assert(clbs[a.cur_block as int].instrs@.subrange(0, a.cur_instrs().len() as int)
            =~= clbs[a.cur_block as int].instrs@.subrange(
            0,
            b.module.functions@[f].blocks@[b.cur_block as int].instrs@.len() as int,
        ).subrange(0, a.cur_instrs().len() as int));
    } else {
        assert(b.cur_block >= albs.len());
        assert(blbs[a.cur_block as int] == clbs[a.cur_block as int]);
    }
}

/// A frame where only the current block grew is also a statement frame
/// when the positions agree.
pub proof fn lemma_expr_frame_stmt(a: Codegen, b: Codegen)
    requires
        a.pos_wf(),
        a.only_cur_block_grew(&b),
        b.function_table == a.function_table,
        b.block_table == a.block_table,
        b.struct_table == a.struct_table,
        a.wf() ==> b.wf(),
    ensures
        stmt_frame(a, b),
{
}

/// Growing the current block with call-checked instructions keeps every
/// call site of the module well formed.
pub proof fn lemma_calls_wf_grow(a: Codegen, b: Codegen)
    requires
        a.pos_wf(),
        a.only_cur_block_grew(&b),
        module_calls_wf(a.module),
        forall|j: int|
            0 <= j < a.appended(&b).len() ==> call_ok(b.module, #[trigger] a.appended(&b)[j]),
    ensures
        module_calls_wf(b.module),
{
    assert forall|f: int, bb: int, j: int|
        0 <= f < b.module.functions@.len() && 0 <= bb < b.module.functions@[f].blocks@.len() && 0
            <= j < b.module.functions@[f].blocks@[bb].instrs@.len() implies call_ok(
        b.module,
        #[trigger] b.module.functions@[f].blocks@[bb].instrs@[j],
    ) by {
        let i = b.module.functions@[f].blocks@[bb].instrs@[j];
        if f == a.cur_func && bb == a.cur_block {
            if j < a.cur_instrs().len() {
                assert(a.cur_instrs()[j] == i) by {
                    assert(b.cur_instrs().subrange(0, a.cur_instrs().len() as int)[j] == i);
                }
                assert(call_ok(a.module, i));
                lemma_call_ok_same_funcs(a.module, b.module, i);
            } else {
                assert(a.appended(&b)[j - a.cur_instrs().len()] == i);
            }
        } else {
            assert(b.module.functions@[f].blocks@[bb] == a.module.functions@[f].blocks@[bb]);
            assert(call_ok(a.module, i));
            lemma_call_ok_same_funcs(a.module, b.module, i);
        }
    }
}

/// Call well-formedness only looks at function names and arities.
pub proof fn lemma_call_ok_same_funcs(m1: EModule, m2: EModule, i: EInstr)
    requires
        call_ok(m1, i),
        m1.functions@.len() == m2.functions@.len(),
        forall|k: int|
            0 <= k < m1.functions@.len() ==> (#[trigger] m2.functions@[k]).name
                == m1.functions@[k].name && m2.functions@[k].params@.len()
                == m1.functions@[k].params@.len(),
    ensures
        call_ok(m2, i),
{
    match i {
        EInstr::Call { callee, args, .. } => {
            let k = choose|k: int|
                0 <= k < m1.functions@.len() && (#[trigger] m1.functions@[k]).name@ == callee@
                    && args@.len() == m1.functions@[k].params@.len();
            assert(m2.functions@[k].name@ == callee@ && args@.len()
                == m2.functions@[k].params@.len());
        },
        _ => {},
    }
}

// ---------------------------------------------------------------------
// The code-generation visitor: drives the builder over the syntax tree
// through the expression-stack discipline.
// ---------------------------------------------------------------------

/// A function whose parameters are all integers and whose return type is
/// integer or void; only these can be declared to the backend.
pub open spec fn func_declarable(f: Func) -> bool {
    &&& forall|i: int|
        0 <= i < f.pars@.len() ==> (#[trigger] f.pars@[i]).ty.unwrap()@ == TyView::IntTy
    &&& !(crate::ast::ty_opt_view(f.ret_ty) matches Some(TyView::StructTy(_)))
}

/// Only integer parameters and an integer or void return can be turned
/// into a backend function type.
pub open spec fn sig_intable(sig: FunctionSignature) -> bool {
    &&& forall|i: int|
        0 <= i < sig.spec_args_ty().len() ==> (#[trigger] sig.spec_args_ty()[i]) is Int
    &&& !(sig.spec_ret_ty() matches Some(DataType::Struct(_)))
}

/// The visitor is stateless beyond a monotonic counter used to number
/// the values the backend produces.
pub struct CodegenVisitor {
    pub number_generator: usize,
}

impl CodegenVisitor {
    pub fn new() -> (r: Self)
        ensures
            r.number_generator == 0,
    {
        Self { number_generator: 0 }
    }

    /// A fresh number for the next emitted value; the numbering is
    /// observable in the output but carries no meaning.
    pub fn generate_number(&mut self) -> (r: usize) {
        let number = self.number_generator;
        if self.number_generator < usize::MAX {
            self.number_generator = self.number_generator + 1;
        }
        number
    }

    /// The value class a declared type maps to.
    pub fn get_basic_value_ty_from_datatype(&self, ty: &DataType) -> (r: BasicValueType)
        ensures
            r == (match *ty {
                DataType::Int => BasicValueType::Int,
                DataType::Struct(_) => BasicValueType::Struct,
            }),
    {
        match ty {
            DataType::Int => BasicValueType::Int,
            DataType::Struct(_) => BasicValueType::Struct,
        }
    }

    /// The backend function type of a signature.  Only integer
    /// parameters and integer or void returns can be emitted.
    pub fn get_function_ty_by_function_signature(
        &self,
        function_signature: &FunctionSignature,
    ) -> (r: Result<(Vec<EType>, Option<EType>), CompileError>)
        ensures
            r is Ok <==> sig_intable(*function_signature),
            match r {
                Ok(p) => p.0@.len() == function_signature.spec_args_ty().len() && ((p.1 is Some)
                    <==> (function_signature.spec_ret_ty() is Some)) && (forall|k: int|
                    0 <= k < p.0@.len() ==> p.0@[k] == EType::IntTy),
                Err(e) => e.kind matches ErrorKind::CodegenFailure,
            },
    {
        let args = function_signature.get_args_ty();
        let mut out: Vec<EType> = Vec::new();
        let mut i: usize = 0;
        while i < args.len()
            invariant
                0 <= i <= args@.len(),
                args@ == function_signature.spec_args_ty(),
                out@.len() == i,
                forall|k: int| 0 <= k < i ==> out@[k] == EType::IntTy,
                forall|k: int|
                    0 <= k < i ==> (#[trigger] function_signature.spec_args_ty()[k]) is Int,
            decreases args@.len() - i,
        {
            match &args[i] {
                DataType::Int => {
                    out.push(EType::IntTy);
                },
                DataType::Struct(_) => {
                    proof {
                        assert(!((function_signature.spec_args_ty()[i as int]) is Int));
                    }
                    return Err(CompileError::new(ErrorKind::CodegenFailure));
                },
            }
            i = i + 1;
        }
        let ret: Option<EType> = match function_signature.get_ret_ty() {
            Some(DataType::Int) => Some(EType::IntTy),
            Some(DataType::Struct(_)) => {
                return Err(CompileError::new(ErrorKind::CodegenFailure));
            },
            None => None,
        };
        Ok((out, ret))
    }
}



/// Nothing changed: the growth relation is reflexive.
pub proof fn lemma_frame_refl(a: Codegen)
    requires
        a.pos_wf(),
    ensures
        a.only_cur_block_grew(&a),
        a.appended(&a) =~= Seq::<EInstr>::empty(),
{
    assert(a.cur_instrs().subrange(0, a.cur_instrs().len() as int) =~= a.cur_instrs());
}

/// The growth relation composes, and the appended instructions
/// concatenate.
pub proof fn lemma_grew_trans(a: Codegen, b: Codegen, c: Codegen)
    requires
        a.pos_wf(),
        a.only_cur_block_grew(&b),
        b.only_cur_block_grew(&c),
    ensures
        a.only_cur_block_grew(&c),
        a.appended(&c) =~= a.appended(&b) + b.appended(&c),
{
    assert(c.cur_instrs().subrange(0, a.cur_instrs().len() as int) =~= c.cur_instrs().subrange(
        0,
        b.cur_instrs().len() as int,
    ).subrange(0, a.cur_instrs().len() as int));
}

impl CodegenVisitor {
    /// Walk a field-access chain from a pointer to a struct value,
    /// emitting one element-pointer instruction per link, and return the
    /// pointer to the innermost field.
    /// The chain resolves exactly when `chain_ok` holds of it.
    fn resolve_field_chain(
        &mut self,
        cg: &mut Codegen,
        base_ptr: EValue,
        sname: &String,
        field: &Identifier,
    ) -> (r: Result<EValue, CompileError>)
        requires
            old(cg).pos_wf(),
        ensures
            expr_frame(*old(cg), *final(cg)),
            final(cg).expr_stack == old(cg).expr_stack,
            r is Ok <==> chain_ok(
                seq![field.id@] + crate::ast::chain_of(*field),
                sname@,
                struct_state(*old(cg)),
            ),
            r matches Err(e) ==> (e.kind matches ErrorKind::FieldNotFound(_, _) || e.kind
                matches ErrorKind::CodegenFailure),
            r matches Ok(p) ==> gep_chain(
                old(cg).appended(final(cg)),
                base_ptr,
                seq![field.id@] + crate::ast::chain_of(*field),
                sname@,
                struct_state(*old(cg)),
                p,
            ),
        decreases *field,
    {
        let ghost chain = seq![field.id@] + crate::ast::chain_of(*field);
        let stru = match cg.struct_table.get(sname) {
            Some(st) => st,
            None => {
                proof {
                    lemma_frame_refl(*old(cg));
                }
                return Err(CompileError::new(ErrorKind::CodegenFailure));
            },
        };
        let ix = match stru.get_id_by_field_name(field.get_name()) {
            Ok(ix) => ix,
            Err(e) => {
                proof {
                    lemma_field_index_none(stru@.fields, field.id@);
                    lemma_frame_refl(*old(cg));
                }
                return Err(e);
            },
        };
        proof {
            lemma_field_index_some(stru@.fields, field.id@, ix as int);
            assert(chain[0] == field.id@);
        }
        let field_ty = stru.fields[ix].ty.clone();
        let dst = self.generate_number();
        cg.emit(
            EInstr::GetElementPtr {
                dst,
                ty: EType::StructTy(sname.clone()),
                base: base_ptr,
                field: ix,
            },
        );
        let fptr = EValue::Reg(dst);
        match field.get_field() {
            None => {
                proof {
                    assert(crate::ast::chain_of(*field) =~= Seq::<Seq<char>>::empty());
                    assert(chain.len() == 1);
                    lemma_calls_wf_grow_auto(*old(cg), *final(cg));
                    let ap = old(cg).appended(final(cg));
                    assert(ap.len() == 1);
                    assert(struct_state(*old(cg)).dom().contains(sname@));
                    assert(struct_state(*old(cg))[sname@] == stru@.fields);
                    assert(gep_chain(ap, base_ptr, chain, sname@, struct_state(*old(cg)), fptr));
                }
                Ok(fptr)
            },
            Some(nested) => {
                let ghost mid = *cg;
                proof {
                    assert(chain.len() > 1);
                    assert(crate::ast::chain_of(*field) =~= seq![nested.id@]
                        + crate::ast::chain_of(**nested));
                    assert(chain.skip(1) =~= seq![nested.id@] + crate::ast::chain_of(**nested));
                }
                match field_ty {
                    DataType::Struct(next_name) => {
                        let rr = self.resolve_field_chain(cg, fptr, next_name.get_name(), nested);
                        proof {
                            assert(struct_state(mid) =~= struct_state(*old(cg)));
                            lemma_calls_wf_grow_auto(*old(cg), mid);
                            lemma_grew_trans(*old(cg), mid, *final(cg));
                            assert(next_name.id@ == stru@.fields[ix as int].ty->StructTy_0);
                            match rr {
                                Ok(p) => {
                                    let ap = old(cg).appended(final(cg));
                                    assert(ap.skip(1) =~= mid.appended(final(cg)));
                                    assert(ap[0] == old(cg).appended(&mid)[0]);
                                    assert(struct_state(*old(cg)).dom().contains(sname@));
                                    assert(struct_state(*old(cg))[sname@] == stru@.fields);
                                    assert(gep_chain(
                                        ap.skip(1),
                                        fptr,
                                        chain.skip(1),
                                        next_name.id@,
                                        struct_state(*old(cg)),
                                        p,
                                    ));
                                    assert(gep_chain(
                                        ap,
                                        base_ptr,
                                        chain,
                                        sname@,
                                        struct_state(*old(cg)),
                                        p,
                                    ));
                                },
                                Err(_) => {},
                            }
                        }
                        rr
                    },
                    DataType::Int => {
                        proof {
                            lemma_calls_wf_grow_auto(*old(cg), *final(cg));
                        }
                        Err(CompileError::new(ErrorKind::CodegenFailure))
                    },
                }
            },
        }
    }
}

/// `field_index` finds no field exactly when no field bears the name.
pub proof fn lemma_field_index_none(fields: Seq<FieldView>, name: Seq<char>)
    requires
        forall|j: int| 0 <= j < fields.len() ==> fields[j].name != name,
    ensures
        field_index(fields, name) is None,
    decreases fields,
{
    if fields.len() > 0 {
        lemma_field_index_none(fields.skip(1), name);
    }
}

/// `field_index` finds the first field that bears the name.
pub proof fn lemma_field_index_some(fields: Seq<FieldView>, name: Seq<char>, i: int)
    requires
        0 <= i < fields.len(),
        fields[i].name == name,
        forall|j: int| 0 <= j < i ==> fields[j].name != name,
    ensures
        field_index(fields, name) == Some(i),
    decreases fields,
{
    if i > 0 {
        lemma_field_index_some(fields.skip(1), name, i - 1);
        assert(fields.skip(1)[i - 1] == fields[i]);
    }
}

/// Growing the current block with non-call instructions keeps every call
/// site well formed; packaged for the common case.
pub proof fn lemma_calls_wf_grow_auto(a: Codegen, b: Codegen)
    requires
        a.pos_wf(),
        a.only_cur_block_grew(&b),
        b.same_tables(&a),
        forall|j: int|
            0 <= j < a.appended(&b).len() ==> !((#[trigger] a.appended(&b)[j]) matches
                EInstr::Call { .. }),
    ensures
        a.wf() ==> b.wf(),
{
    if a.wf() {
        assert forall|j: int|
            0 <= j < a.appended(&b).len() implies call_ok(
            b.module,
            #[trigger] a.appended(&b)[j],
        ) by {
            assert(!(a.appended(&b)[j] matches EInstr::Call { .. }));
        }
        lemma_calls_wf_grow(a, b);
    }
}


impl CodegenVisitor {
    /// Emit the read of a named reference: load through a pointer slot,
    /// walk a field chain with element-pointer instructions, or push a
    /// direct value (the parameter fast path).
    fn emit_reference(
        &mut self,
        cg: &mut Codegen,
        base: &Identifier,
        chain_head: Option<&Identifier>,
    ) -> (r: Result<(), CompileError>)
        requires
            old(cg).pos_wf(),
        ensures
            expr_frame(*old(cg), *final(cg)),
            r is Ok <==> ref_ok(
                base.id@,
                match chain_head {
                    None => Seq::empty(),
                    Some(f) => seq![f.id@] + crate::ast::chain_of(*f),
                },
                sym_state(*old(cg)),
                struct_state(*old(cg)),
            ),
            r is Ok ==> final(cg).expr_stack@.len() == old(cg).expr_stack@.len() + 1 && final(cg).expr_stack@.subrange(0, old(cg).expr_stack@.len() as int) == old(cg).expr_stack@,
            r is Ok ==> old(cg).symbol_table.spec_get(base.id@) is Some && emits_ref(
                match chain_head {
                    None => Seq::empty(),
                    Some(f) => seq![f.id@] + crate::ast::chain_of(*f),
                },
                old(cg).symbol_table.spec_get(base.id@).unwrap(),
                struct_state(*old(cg)),
                old(cg).appended(final(cg)),
                final(cg).expr_stack@.last(),
            ),
            r matches Err(e) ==> (if !old(cg).symbol_table.spec_contains(base.id@) {
                e.kind matches ErrorKind::SymbolNotDefined(n) && n@ == base.id@
            } else {
                (e.kind matches ErrorKind::FieldNotFound(_, _)) || (e.kind matches
                ErrorKind::CodegenFailure)
            }),
    {
        let ghost chain: Seq<Seq<char>> = match chain_head {
            None => Seq::empty(),
            Some(f) => seq![f.id@] + crate::ast::chain_of(*f),
        };
        let picked: (BasicValue, Option<String>) = match cg.symbol_table.get(base.get_name()) {
            Some(entry) => {
                let bv = entry.1;
                let sty: Option<String> = match &entry.0.ty {
                    Some(DataType::Struct(b)) => Some(b.get_name().clone()),
                    _ => None,
                };
                (bv, sty)
            },
            None => {
                proof {
                    lemma_frame_refl(*old(cg));
                }
                return Err(
                    CompileError::new(ErrorKind::SymbolNotDefined(base.get_name().clone())),
                );
            },
        };
        let (bv, sty) = picked;
        match chain_head {
            None => {
                if let BasicValueType::Pointer = bv.ty {
                    let dst = self.generate_number();
                    cg.emit(EInstr::Load { dst, ptr: bv.value });
                    cg.push_value(BasicValue { ty: BasicValueType::Int, value: EValue::Reg(dst) });
                    proof {
                        lemma_calls_wf_grow_auto(*old(cg), *final(cg));
                        assert(old(cg).appended(final(cg)).len() == 1);
                        assert(emits_ref(
                            chain,
                            old(cg).symbol_table.spec_get(base.id@).unwrap(),
                            struct_state(*old(cg)),
                            old(cg).appended(final(cg)),
                            final(cg).expr_stack@.last(),
                        ));
                    }
                    Ok(())
                } else {
                    cg.push_value(bv);
                    proof {
                        lemma_frame_refl(*old(cg));
                        assert(old(cg).appended(final(cg)).len() == 0);
                        assert(emits_ref(
                            chain,
                            old(cg).symbol_table.spec_get(base.id@).unwrap(),
                            struct_state(*old(cg)),
                            old(cg).appended(final(cg)),
                            final(cg).expr_stack@.last(),
                        ));
                    }
                    Ok(())
                }
            },
            Some(f) => {
                if !(matches!(bv.ty, BasicValueType::Pointer)) {
                    proof {
                        lemma_frame_refl(*old(cg));
                    }
                    return Err(CompileError::new(ErrorKind::CodegenFailure));
                }
                let sname = match sty {
                    Some(n) => n,
                    None => {
                        proof {
                            lemma_frame_refl(*old(cg));
                        }
                        return Err(CompileError::new(ErrorKind::CodegenFailure));
                    },
                };
                let fptr = match self.resolve_field_chain(cg, bv.value, &sname, f) {
                    Ok(p) => p,
                    Err(e) => {
                        return Err(e);
                    },
                };
                let ghost mid = *cg;
                let dst = self.generate_number();
                cg.emit(EInstr::Load { dst, ptr: fptr });
                cg.push_value(BasicValue { ty: BasicValueType::Int, value: EValue::Reg(dst) });
                proof {
                    lemma_calls_wf_grow_auto(mid, *final(cg));
                    lemma_grew_trans(*old(cg), mid, *final(cg));
                    let ap = old(cg).appended(final(cg));
                    assert(ap.drop_last() =~= old(cg).appended(&mid));
                    assert(ap.last() == mid.appended(final(cg))[0]);
                    let en = old(cg).symbol_table.spec_get(base.id@).unwrap();
                    assert(en.0@.ty matches Some(TyView::StructTy(sn)) && sn == sname@);
                    assert(emits_ref(
                        chain,
                        en,
                        struct_state(*old(cg)),
                        ap,
                        final(cg).expr_stack@.last(),
                    ));
                }
                Ok(())
            },
        }
    }

    /// Emit an atomic operand: a constant, a named reference, or a
    /// member access pair.
    pub fn visit_term(
        &mut self,
        _func: &Func,
        _statement: &Statement,
        _expr: &Expr,
        term: &Term,
        cg: &mut Codegen,
    ) -> (r: Result<(), CompileError>)
        requires
            old(cg).pos_wf(),
        ensures
            expr_frame(*old(cg), *final(cg)),
            r is Ok <==> term_ok(*term, sym_state(*old(cg)), struct_state(*old(cg))),
            r is Ok ==> final(cg).expr_stack@.len() == old(cg).expr_stack@.len() + 1 && final(cg).expr_stack@.subrange(0, old(cg).expr_stack@.len() as int) == old(cg).expr_stack@,
            r is Ok ==> emits_term(
                *term,
                old(cg).symbol_table,
                struct_state(*old(cg)),
                old(cg).appended(final(cg)),
                final(cg).expr_stack@.last(),
            ),
            r matches Err(e) ==> ((e.kind matches ErrorKind::SymbolNotDefined(_)) || (e.kind
                matches ErrorKind::FieldNotFound(_, _)) || (e.kind matches
            ErrorKind::CodegenFailure)),
    {
        match term {
            Term::Num(num) => {
                cg.push_value(
                    BasicValue { ty: BasicValueType::Int, value: EValue::ConstInt(*num) },
                );
                proof {
                    lemma_frame_refl(*old(cg));
                    assert(old(cg).appended(final(cg)).len() == 0);
                }
                Ok(())
            },
            Term::Id(ident) => {
                let head: Option<&Identifier> = match ident.get_field() {
                    Some(b) => Some(&**b),
                    None => None,
                };
                let rr = self.emit_reference(cg, ident, head);
                proof {
                    assert(ident@.chain == (match head {
                        None => Seq::<Seq<char>>::empty(),
                        Some(f) => seq![f.id@] + crate::ast::chain_of(*f),
                    })) by {
                        match ident.field {
                            None => {
                                assert(crate::ast::chain_of(*ident) =~= Seq::<
                                    Seq<char>,
                                >::empty());
                            },
                            Some(_) => {},
                        }
                    }
                }
                rr
            },
            Term::Object(obj, f) => self.emit_reference(cg, obj, Some(f)),
        }
    }
}


impl CodegenVisitor {
    /// Emit an expression, leaving its value on the expression stack:
    /// constants and references push one value; a binary operation
    /// evaluates left then right and pops right then left; a call
    /// evaluates its arguments in order, pops them, and pushes the
    /// result when the callee returns one.
    #[verifier::loop_isolation(false)]
    #[verifier::rlimit(100)]
    pub fn visit_expr(
        &mut self,
        func: &Func,
        statement: &Statement,
        expr: &Expr,
        cg: &mut Codegen,
    ) -> (r: Result<(), CompileError>)
        requires
            old(cg).pos_wf(),
        ensures
            expr_frame(*old(cg), *final(cg)),
            r is Ok <==> expr_ok(
                *expr,
                sym_state(*old(cg)),
                fn_state(*old(cg)),
                struct_state(*old(cg)),
            ),
            r is Ok ==> final(cg).expr_stack@.len() == old(cg).expr_stack@.len() + expr_pushes(
                *expr,
                fn_state(*old(cg)),
            ) && final(cg).expr_stack@.subrange(0, old(cg).expr_stack@.len() as int) == old(cg).expr_stack@,
            r is Ok ==> emits_expr(
                *expr,
                old(cg).symbol_table,
                old(cg).function_table,
                struct_state(*old(cg)),
                old(cg).appended(final(cg)),
                final(cg).expr_stack@.skip(old(cg).expr_stack@.len() as int),
            ),
            r matches Err(e) ==> ((e.kind matches ErrorKind::SymbolNotDefined(_)) || (e.kind
                matches ErrorKind::FieldNotFound(_, _)) || (e.kind matches
            ErrorKind::FunctionNotDefined(_)) || (e.kind matches ErrorKind::CodegenFailure)),
        decreases *expr,
    {
        let ghost base_len = old(cg).expr_stack@.len() as int;
        match expr {
            Expr::Num(num) => {
                cg.push_value(
                    BasicValue { ty: BasicValueType::Int, value: EValue::ConstInt(*num) },
                );
                proof {
                    lemma_frame_refl(*old(cg));
                    assert(old(cg).appended(final(cg)).len() == 0);
                    assert(final(cg).expr_stack@.skip(base_len) =~= seq![
                        final(cg).expr_stack@.last(),
                    ]);
                }
                Ok(())
            },
            Expr::Id(ident) => {
                let head: Option<&Identifier> = match ident.get_field() {
                    Some(b) => Some(&**b),
                    None => None,
                };
                let rr = self.emit_reference(cg, ident, head);
                proof {
                    match ident.field {
                        None => {
                            assert(crate::ast::chain_of(*ident) =~= Seq::<Seq<char>>::empty());
                        },
                        Some(_) => {},
                    }
                    if rr is Ok {
                        assert(final(cg).expr_stack@.skip(base_len) =~= seq![
                            final(cg).expr_stack@.last(),
                        ]);
                    }
                }
                rr
            },
            Expr::Struct(t) => {
                if !cg.struct_table.lookup_symbol(t.get_name()) {
                    proof {
                        lemma_frame_refl(*old(cg));
                    }
                    return Err(CompileError::new(ErrorKind::CodegenFailure));
                }
                let dst = self.generate_number();
                cg.emit(EInstr::Alloca { dst, ty: EType::StructTy(t.get_name().clone()) });
                cg.push_value(
                    BasicValue { ty: BasicValueType::Pointer, value: EValue::Reg(dst) },
                );
                proof {
                    lemma_calls_wf_grow_auto(*old(cg), *final(cg));
                    assert(old(cg).appended(final(cg)).len() == 1);
                    assert(final(cg).expr_stack@.skip(base_len) =~= seq![
                        final(cg).expr_stack@.last(),
                    ]);
                }
                Ok(())
            },
            Expr::Term(term) => {
                let rr = self.visit_term(func, statement, expr, term, cg);
                proof {
                    if rr is Ok {
                        assert(final(cg).expr_stack@.skip(base_len) =~= seq![
                            final(cg).expr_stack@.last(),
                        ]);
                    }
                }
                rr
            },
            Expr::Binary(opcode, term1, term2) => {
                let r1 = self.visit_term(func, statement, expr, term1, cg);
                match r1 {
                    Ok(()) => {},
                    Err(e) => {
                        return Err(e);
                    },
                }
                let ghost m1 = *cg;
                let r2 = self.visit_term(func, statement, expr, term2, cg);
                match r2 {
                    Ok(()) => {},
                    Err(e) => {
                        proof {
                            lemma_grew_trans(*old(cg), m1, *final(cg));
                            assert(struct_state(m1) =~= struct_state(*old(cg)));
                            assert(sym_state(m1) =~= sym_state(*old(cg)));
                        }
                        return Err(e);
                    },
                }
                let ghost m2 = *cg;
                proof {
                    lemma_grew_trans(*old(cg), m1, m2);
                    assert(struct_state(m1) =~= struct_state(*old(cg)));
                    assert(sym_state(m1) =~= sym_state(*old(cg)));
                }
                let t2 = match cg.pop_value() {
                    Some(v) => v,
                    None => {
                        proof {
                            assert(false);
                        }
                        return Err(CompileError::new(ErrorKind::CodegenFailure));
                    },
                };
                let t1 = match cg.pop_value() {
                    Some(v) => v,
                    None => {
                        proof {
                            assert(false);
                        }
                        return Err(CompileError::new(ErrorKind::CodegenFailure));
                    },
                };
                let dst = self.generate_number();
                let instr: EInstr = match opcode {
                    crate::ast::Opcode::Add => EInstr::BinOp {
                        dst,
                        op: EOp::Add,
                        a: t1.value,
                        b: t2.value,
                    },
                    crate::ast::Opcode::Sub => EInstr::BinOp {
                        dst,
                        op: EOp::Sub,
                        a: t1.value,
                        b: t2.value,
                    },
                    crate::ast::Opcode::Mul => EInstr::BinOp {
                        dst,
                        op: EOp::Mul,
                        a: t1.value,
                        b: t2.value,
                    },
                    crate::ast::Opcode::Div => EInstr::BinOp {
                        dst,
                        op: EOp::Div,
                        a: t1.value,
                        b: t2.value,
                    },
                    crate::ast::Opcode::Or => EInstr::BinOp {
                        dst,
                        op: EOp::Or,
                        a: t1.value,
                        b: t2.value,
                    },
                    crate::ast::Opcode::Cmp => EInstr::ICmp {
                        dst,
                        pred: EPred::Eq,
                        a: t1.value,
                        b: t2.value,
                    },
                    crate::ast::Opcode::Geq => EInstr::ICmp {
                        dst,
                        pred: EPred::Sge,
                        a: t1.value,
                        b: t2.value,
                    },
                    _ => {
                        proof {
                            lemma_grew_trans(*old(cg), m1, m2);
                        }
                        return Err(CompileError::new(ErrorKind::CodegenFailure));
                    },
                };
                cg.emit(instr);
                cg.push_value(BasicValue { ty: BasicValueType::Int, value: EValue::Reg(dst) });
                proof {
                    lemma_calls_wf_grow_auto(m2, *final(cg));
                    lemma_grew_trans(*old(cg), m2, *final(cg));
                    assert(final(cg).expr_stack@.subrange(0, old(cg).expr_stack@.len() as int)
                        =~= old(cg).expr_stack@);
                    let app = old(cg).appended(final(cg));
                    let a1 = old(cg).appended(&m1);
                    let a2 = m1.appended(&m2);
                    let k1 = a1.len() as int;
                    let k2 = k1 + a2.len() as int;
                    assert(app.subrange(0, k1) =~= a1);
                    assert(app.subrange(k1, k2) =~= app.subrange(
                        0,
                        old(cg).appended(&m2).len() as int,
                    ).subrange(k1, k2));
                    assert(old(cg).appended(&m2).subrange(k1, k2) =~= a2);
                    assert(app.subrange(0, old(cg).appended(&m2).len() as int) =~= old(cg).appended(&m2));
                    assert(app.subrange(k1, k2) =~= a2);
                    assert(k2 == app.len() - 1);
                    assert(app.last() == instr);
                    assert(m1.expr_stack@.last() == t1);
                    assert(m2.expr_stack@.last() == t2);
                    assert(emits_term(
                        **term1,
                        old(cg).symbol_table,
                        struct_state(*old(cg)),
                        app.subrange(0, k1),
                        t1,
                    ));
                    assert(emits_term(
                        **term2,
                        old(cg).symbol_table,
                        struct_state(*old(cg)),
                        app.subrange(k1, k2),
                        t2,
                    ));
                    let delta = final(cg).expr_stack@.skip(base_len);
                    assert(delta =~= seq![final(cg).expr_stack@.last()]);
                    lemma_emits_binary_intro(
                        *expr,
                        old(cg).symbol_table,
                        old(cg).function_table,
                        struct_state(*old(cg)),
                        app,
                        delta,
                        k1,
                        t1,
                        t2,
                    );
                }
                Ok(())
            },
            Expr::Call(ident, exprs) => {
                let ghost sym0 = sym_state(*old(cg));
                let ghost ft0 = fn_state(*old(cg));
                let ghost sts0 = struct_state(*old(cg));
                let len = exprs.len();
                proof {
                    lemma_frame_refl(*old(cg));
                    assert(exprs@.take(0) =~= Seq::<Expr>::empty());
                    assert(cg.expr_stack@.skip(base_len) =~= Seq::<BasicValue>::empty());
                }
                let mut i: usize = 0;
                while i < len
                    invariant
                        0 <= i <= exprs@.len(),
                        len == exprs@.len(),
                        cg.pos_wf(),
                        old(cg).only_cur_block_grew(cg),
                        cg.same_tables(old(cg)),
                        no_terminators(old(cg).appended(cg)),
                        old(cg).wf() ==> cg.wf(),
                        cg.expr_stack@.len() == old(cg).expr_stack@.len() + i,
                        cg.expr_stack@.subrange(0, old(cg).expr_stack@.len() as int) == old(cg).expr_stack@,
                        forall|j: int|
                            0 <= j < i ==> expr_ok(#[trigger] exprs@[j], sym0, ft0, sts0)
                                && expr_pushes(exprs@[j], ft0) == 1,
                        emits_args(
                            exprs@.take(i as int),
                            old(cg).symbol_table,
                            old(cg).function_table,
                            struct_state(*old(cg)),
                            old(cg).appended(cg),
                            cg.expr_stack@.skip(base_len),
                        ),
                    decreases exprs@.len() - i,
                {
                    let ghost mpre = *cg;
                    let before = cg.expr_stack.len();
                    proof {
                        assert(decreases_to!(*expr => exprs@[i as int]));
                        assert(sym_state(mpre) =~= sym0);
                        assert(fn_state(mpre) =~= ft0);
                        assert(struct_state(mpre) =~= sts0);
                    }
                    let ra = self.visit_expr(func, statement, &exprs[i], cg);
                    proof {
                        lemma_grew_trans(*old(cg), mpre, *cg);
                    }
                    match ra {
                        Ok(()) => {},
                        Err(e) => {
                            return Err(e);
                        },
                    }
                    if cg.expr_stack.len() == before {
                        // The argument was a call to a void function: it
                        // left no value for this call site.
                        proof {
                            assert(expr_pushes(exprs@[i as int], ft0) == 0);
                        }
                        return Err(CompileError::new(ErrorKind::CodegenFailure));
                    }
                    proof {
                        assert(cg.expr_stack@.subrange(0, old(cg).expr_stack@.len() as int)
                            =~= mpre.expr_stack@.subrange(
                            0,
                            old(cg).expr_stack@.len() as int,
                        ));
                        let apre = old(cg).appended(&mpre);
                        let anow = old(cg).appended(cg);
                        assert(anow.subrange(0, apre.len() as int) =~= apre);
                        assert(anow.subrange(apre.len() as int, anow.len() as int)
                            =~= mpre.appended(cg));
                        let arg_delta = cg.expr_stack@.skip(mpre.expr_stack@.len() as int);
                        assert(arg_delta =~= seq![cg.expr_stack@.last()]);
                        let vals_pre = mpre.expr_stack@.skip(base_len);
                        let vals_now = cg.expr_stack@.skip(base_len);
                        assert(vals_now.drop_last() =~= vals_pre);
                        assert(vals_now.last() == cg.expr_stack@.last());
                        assert(exprs@.take(i + 1 as int).drop_last() =~= exprs@.take(i as int));
                        assert(exprs@.take(i + 1 as int).last() == exprs@[i as int]);
                        assert(emits_expr(
                            exprs@[i as int],
                            old(cg).symbol_table,
                            old(cg).function_table,
                            struct_state(*old(cg)),
                            anow.subrange(apre.len() as int, anow.len() as int),
                            seq![vals_now.last()],
                        ));
                        lemma_emits_args_step(
                            exprs@.take(i + 1 as int),
                            old(cg).symbol_table,
                            old(cg).function_table,
                            struct_state(*old(cg)),
                            anow,
                            vals_now,
                            apre.len() as int,
                        );
                    }
                    i = i + 1;
                }
                let ghost vals0 = cg.expr_stack@.skip(base_len);
                let ghost acall = old(cg).appended(cg);
                proof {
                    assert(exprs@.take(len as int) =~= exprs@);
                }
                let picked: (usize, bool, Option<DataType>) = match cg.function_table.get(
                    ident.get_name(),
                ) {
                    Some(entry) => {
                        let arity = entry.0.get_args_ty().len();
                        let (has_ret, ret_ty): (bool, Option<DataType>) = match entry
                            .0
                            .get_ret_ty() {
                            Some(t) => (true, Some(t.clone())),
                            None => (false, None),
                        };
                        (arity, has_ret, ret_ty)
                    },
                    None => {
                        return Err(
                            CompileError::new(
                                ErrorKind::FunctionNotDefined(ident.get_name().clone()),
                            ),
                        );
                    },
                };
                let ghost fentry = cg.function_table.spec_get(ident.id@).unwrap();
                let (arity, has_ret, ret_ty) = picked;
                if arity != len {
                    return Err(CompileError::new(ErrorKind::CodegenFailure));
                }
                let mut rev: Vec<EValue> = Vec::new();
                let mut k: usize = 0;
                proof {
                    assert(cg.expr_stack@ =~= old(cg).expr_stack@ + vals0.take(len as int));
                }
                while k < len
                    invariant
                        0 <= k <= len,
                        rev@.len() == k,
                        vals0.len() == len,
                        cg.pos_wf(),
                        old(cg).only_cur_block_grew(cg),
                        cg.same_tables(old(cg)),
                        no_terminators(old(cg).appended(cg)),
                        old(cg).appended(cg) =~= acall,
                        old(cg).wf() ==> cg.wf(),
                        cg.expr_stack@ =~= old(cg).expr_stack@ + vals0.take((len - k) as int),
                        forall|j: int| 0 <= j < k ==> rev@[j] == vals0[len - 1 - j].value,
                    decreases len - k,
                {
                    let ghost mpre = *cg;
                    match cg.pop_value() {
                        Some(v) => {
                            proof {
                                assert(mpre.expr_stack@.last() == vals0[(len - k - 1) as int]);
                            }
                            rev.push(v.value);
                        },
                        None => {
                            proof {
                                assert(false);
                            }
                            return Err(CompileError::new(ErrorKind::CodegenFailure));
                        },
                    }
                    proof {
                        assert(cg.expr_stack@ =~= old(cg).expr_stack@ + vals0.take(
                            (len - k - 1) as int,
                        ));
                    }
                    k = k + 1;
                }
                proof {
                    assert(cg.expr_stack@ =~= old(cg).expr_stack@);
                }
                let mut argsv: Vec<EValue> = Vec::new();
                let mut k2: usize = 0;
                while k2 < len
                    invariant
                        0 <= k2 <= len,
                        rev@.len() == len,
                        argsv@.len() == k2,
                        vals0.len() == len,
                        forall|j: int| 0 <= j < len ==> rev@[j] == vals0[len - 1 - j].value,
                        forall|j: int| 0 <= j < k2 ==> argsv@[j] == vals0[j].value,
                    decreases len - k2,
                {
                    argsv.push(rev[len - 1 - k2]);
                    k2 = k2 + 1;
                }
                let ghost m3 = *cg;
                let dst_and_push: Option<(usize, BasicValueType)> = if has_ret {
                    let dst = self.generate_number();
                    let cls = match &ret_ty {
                        Some(t) => self.get_basic_value_ty_from_datatype(t),
                        None => BasicValueType::Int,
                    };
                    Some((dst, cls))
                } else {
                    None
                };
                let dst_opt: Option<usize> = match dst_and_push {
                    Some((d, _)) => Some(d),
                    None => None,
                };
                cg.emit(
                    EInstr::Call { dst: dst_opt, callee: ident.get_name().clone(), args: argsv },
                );
                match dst_and_push {
                    Some((d, cls)) => {
                        cg.push_value(BasicValue { ty: cls, value: EValue::Reg(d) });
                    },
                    None => {},
                }
                proof {
                    if m3.wf() {
                        assert forall|j: int|
                            0 <= j < m3.appended(final(cg)).len() implies call_ok(
                            final(cg).module,
                            #[trigger] m3.appended(final(cg))[j],
                        ) by {
                            let e = m3.function_table.spec_get(ident.id@).unwrap();
                            assert(final(cg).module.functions@[e.1 as int].name@ == ident.id@);
                            assert(final(cg).module.functions@[e.1 as int].params@.len()
                                == len);
                        }
                        lemma_calls_wf_grow(m3, *final(cg));
                    }
                    lemma_grew_trans(*old(cg), m3, *final(cg));
                    assert(final(cg).expr_stack@.subrange(0, old(cg).expr_stack@.len() as int)
                        =~= old(cg).expr_stack@);
                    let app = old(cg).appended(final(cg));
                    assert(app.drop_last() =~= acall);
                    assert(app.last() == m3.appended(final(cg))[0]);
                    assert(emits_args(
                        exprs@,
                        old(cg).symbol_table,
                        old(cg).function_table,
                        struct_state(*old(cg)),
                        app.drop_last(),
                        vals0,
                    ));
                    let delta = final(cg).expr_stack@.skip(base_len);
                    if has_ret {
                        assert(delta =~= seq![final(cg).expr_stack@.last()]);
                        match fentry.0.spec_ret_ty() {
                            Some(rt) => {
                                assert(crate::ast::ty_opt_view(Some(rt)) == crate::ast::ty_opt_view(ret_ty));
                            },
                            None => {
                                assert(false);
                            },
                        }
                    } else {
                        assert(delta =~= Seq::<BasicValue>::empty());
                    }
                    lemma_emits_call_intro(
                        *expr,
                        old(cg).symbol_table,
                        old(cg).function_table,
                        struct_state(*old(cg)),
                        app,
                        delta,
                        vals0,
                    );
                }
                Ok(())
            },
        }
    }
}


/// One instruction alone counts one return exactly when it is one.
pub proof fn lemma_ret_count_single(i: EInstr)
    ensures
        ret_count(seq![i]) == (if is_ret(i) {
            1int
        } else {
            0int
        }),
{
    assert(ret_count(Seq::<EInstr>::empty()) == 0);
    assert(seq![i].drop_last() =~= Seq::<EInstr>::empty());
    assert(seq![i].last() == i);
}

/// Appending one fresh empty block to the current function preserves the
/// statement frame.
pub proof fn lemma_frame_after_append(a: Codegen, b: Codegen)
    requires
        a.pos_wf(),
        b.cur_func == a.cur_func,
        b.cur_block == a.cur_block,
        b.module.name == a.module.name,
        b.module.target == a.module.target,
        b.module.structs == a.module.structs,
        b.module.functions@.len() == a.module.functions@.len(),
        forall|k: int|
            0 <= k < a.module.functions@.len() && k != a.cur_func ==> b.module.functions@[k]
                == a.module.functions@[k],
        b.module.functions@[a.cur_func as int].name == a.module.functions@[a.cur_func as int].name,
        b.module.functions@[a.cur_func as int].params == a.module.functions@[a.cur_func as int].params,
        b.module.functions@[a.cur_func as int].ret == a.module.functions@[a.cur_func as int].ret,
        b.module.functions@[a.cur_func as int].blocks@.len() == a.module.functions@[a.cur_func as int].blocks@.len() + 1,
        b.module.functions@[a.cur_func as int].blocks@.subrange(
            0,
            a.module.functions@[a.cur_func as int].blocks@.len() as int,
        ) == a.module.functions@[a.cur_func as int].blocks@,
        b.module.functions@[a.cur_func as int].blocks@.last().instrs@ == Seq::<EInstr>::empty(),
        b.same_tables(&a),
    ensures
        stmt_frame(a, b),
        b.pos_wf(),
{
    let f = a.cur_func as int;
    let albs = a.module.functions@[f].blocks@;
    let blbs = b.module.functions@[f].blocks@;
    assert forall|bb: int| 0 <= bb < albs.len() implies blbs[bb] == albs[bb] by {
        assert(blbs.subrange(0, albs.len() as int)[bb] == blbs[bb]);
    }
    assert(blbs[a.cur_block as int].instrs@.subrange(
        0,
        a.cur_instrs().len() as int,
    ) =~= a.cur_instrs());
    if a.wf() {
        assert forall|ff: int, bb: int, j: int|
            0 <= ff < b.module.functions@.len() && 0 <= bb < b.module.functions@[ff].blocks@.len()
                && 0 <= j < b.module.functions@[ff].blocks@[bb].instrs@.len() implies call_ok(
            b.module,
            #[trigger] b.module.functions@[ff].blocks@[bb].instrs@[j],
        ) by {
            if ff == f && bb == albs.len() {
                assert(b.module.functions@[ff].blocks@[bb].instrs@.len() == 0);
            } else {
                assert(b.module.functions@[ff].blocks@[bb]
                    == a.module.functions@[ff].blocks@[bb]);
                lemma_call_ok_same_funcs(
                    a.module,
                    b.module,
                    b.module.functions@[ff].blocks@[bb].instrs@[j],
                );
            }
        }
    }
}

impl Codegen {
    /// Whether the block at the insertion point already ends in a
    /// terminator.
    pub fn cur_terminated(&self) -> (r: bool)
        requires
            self.pos_wf(),
        ensures
            r == crate::backend::block_terminated(
                self.module.functions@[self.cur_func as int].blocks@[self.cur_block as int],
            ),
    {
        let f = self.cur_func;
        let b = self.cur_block;
        let instrs = &self.module.functions[f].blocks[b].instrs;
        if instrs.len() == 0 {
            false
        } else {
            match &instrs[instrs.len() - 1] {
                EInstr::Br { .. } => true,
                EInstr::CondBr { .. } => true,
                EInstr::Ret { .. } => true,
                EInstr::RetVoid => true,
                _ => false,
            }
        }
    }
}


impl CodegenVisitor {
    /// Emit one statement at the insertion point.  A return consumes the
    /// evaluated value; a definition allocates a slot, stores into it
    /// and binds the name; an assignment stores to the existing slot or
    /// to the addressed field; a conditional branches to fresh `then`
    /// (and `else`) blocks and continues in a `resume` block.  The
    /// expression stack is empty afterwards.
    #[verifier::loop_isolation(false)]
    #[verifier::rlimit(100)]
    pub fn visit_statement(&mut self, func: &Func, stmt: &Statement, cg: &mut Codegen) -> (r:
        Result<(), CompileError>)
        requires
            old(cg).pos_wf(),
        ensures
            stmt_frame(*old(cg), *final(cg)),
            final(cg).pos_wf(),
            match r {
                Ok(()) => {
                    &&& stmt_emit_ok(
                        *stmt,
                        sym_state(*old(cg)),
                        fn_state(*old(cg)),
                        struct_state(*old(cg)),
                    )
                    &&& sym_state(*final(cg)) == stmt_sym_after(*stmt, sym_state(*old(cg)))
                    &&& final(cg).expr_stack@.len() == 0
                    &&& match *stmt {
                        Statement::RetVoid => old(cg).only_cur_block_grew(final(cg)) && old(cg).appended(final(cg)) =~= seq![EInstr::RetVoid],
                        Statement::Ret(e) => old(cg).only_cur_block_grew(final(cg)) && ret_count(
                            old(cg).appended(final(cg)),
                        ) == 1 && (exists|v: BasicValue|
                            emits_expr(
                                e,
                                old(cg).symbol_table,
                                old(cg).function_table,
                                struct_state(*old(cg)),
                                old(cg).appended(final(cg)).drop_last(),
                                #[trigger] Seq::empty().push(v),
                            ) && old(cg).appended(final(cg)).last() == (EInstr::Ret {
                                val: v.value,
                            })),
                        Statement::Definition(id, e) => old(cg).only_cur_block_grew(final(cg))
                            && no_terminators(old(cg).appended(final(cg))) && (
                        final(cg).symbol_table.spec_get(id.id@) matches Some(en) && en.0@ == id@
                            && (exists|v: BasicValue|
                            #![trigger Seq::empty().push(v)]
                            {
                                let ap = old(cg).appended(final(cg));
                                if v.ty is Pointer {
                                    &&& emits_expr(
                                        e,
                                        old(cg).symbol_table,
                                        old(cg).function_table,
                                        struct_state(*old(cg)),
                                        ap,
                                        Seq::empty().push(v),
                                    )
                                    &&& en.1 == v
                                } else {
                                    &&& ap.len() >= 2
                                    &&& emits_expr(
                                        e,
                                        old(cg).symbol_table,
                                        old(cg).function_table,
                                        struct_state(*old(cg)),
                                        ap.subrange(0, ap.len() - 2),
                                        Seq::empty().push(v),
                                    )
                                    &&& (ap[ap.len() - 2] matches EInstr::Alloca { dst, ty }
                                        && ty == EType::IntTy && ap.last() == (EInstr::Store {
                                        val: v.value,
                                        ptr: EValue::Reg(dst),
                                    }) && en.1 == (BasicValue {
                                        ty: BasicValueType::Pointer,
                                        value: EValue::Reg(dst),
                                    }))
                                }
                            })),
                        Statement::Assign(id, e) => old(cg).only_cur_block_grew(final(cg))
                            && no_terminators(old(cg).appended(final(cg))) && (
                        old(cg).symbol_table.spec_get(id.id@) matches Some(en) && (exists|
                            v: BasicValue,
                            k: int,
                        |
                            #![trigger Seq::empty().push(v), old(cg).appended(final(cg)).subrange(0, k)]
                            {
                                let ap = old(cg).appended(final(cg));
                                &&& 0 <= k <= ap.len() - 1
                                &&& emits_expr(
                                    e,
                                    old(cg).symbol_table,
                                    old(cg).function_table,
                                    struct_state(*old(cg)),
                                    ap.subrange(0, k),
                                    Seq::empty().push(v),
                                )
                                &&& (if id@.chain.len() == 0 {
                                    k == ap.len() - 1 && ap.last() == (EInstr::Store {
                                        val: v.value,
                                        ptr: en.1.value,
                                    })
                                } else {
                                    en.0@.ty matches Some(TyView::StructTy(sn)) && (ap.last()
                                        matches EInstr::Store { val, ptr } && val == v.value
                                        && gep_chain(
                                        ap.subrange(k, ap.len() - 1),
                                        en.1.value,
                                        id@.chain,
                                        sn,
                                        struct_state(*old(cg)),
                                        ptr,
                                    ))
                                })
                            })),
                        Statement::Conditional(c, t, els) => {
                            let fidx = old(cg).cur_func as int;
                            let bidx = old(cg).cur_block as int;
                            let lcount = old(cg).module.functions@[fidx].blocks@.len() as int;
                            let fin =
                                final(cg).module.functions@[fidx].blocks@[bidx].instrs@;
                            let fblocks = final(cg).module.functions@[fidx].blocks@;
                            &&& fin.len() >= old(cg).cur_instrs().len() + 1
                            &&& (exists|v: BasicValue|
                                emits_expr(
                                    c,
                                    old(cg).symbol_table,
                                    old(cg).function_table,
                                    struct_state(*old(cg)),
                                    fin.subrange(
                                        old(cg).cur_instrs().len() as int,
                                        fin.len() - 1,
                                    ),
                                    #[trigger] Seq::empty().push(v),
                                ) && fin.last() == (EInstr::CondBr {
                                    cond: v.value,
                                    then_dest: lcount as usize,
                                    else_dest: (lcount + 1) as usize,
                                }))
                            &&& fblocks.len() >= lcount + 2
                            &&& fblocks[lcount].label@ == "then"@
                            &&& (match els {
                                Some(_) => fblocks.len() >= lcount + 3 && fblocks[lcount
                                    + 1].label@ == "else"@ && fblocks[lcount + 2].label@
                                    == "resume"@ && final(cg).cur_block == lcount + 2,
                                None => fblocks[lcount + 1].label@ == "resume"@ && final(cg).cur_block == lcount + 1,
                            })
                        },
                    }
                },
                Err(e) => !stmt_emit_ok(
                    *stmt,
                    sym_state(*old(cg)),
                    fn_state(*old(cg)),
                    struct_state(*old(cg)),
                ),
            },
        decreases *stmt,
    {
        let ghost sym0 = sym_state(*old(cg));
        let ghost ft0 = fn_state(*old(cg));
        let ghost sts0 = struct_state(*old(cg));
        match stmt {
            Statement::RetVoid => {
                cg.emit(EInstr::RetVoid);
                let _ = cg.clear_expr_table();
                proof {
                    lemma_calls_wf_grow_auto(*old(cg), *final(cg));
                    lemma_expr_frame_stmt(*old(cg), *final(cg));
                    assert(old(cg).appended(final(cg)) =~= seq![EInstr::RetVoid]);
                    assert(sym_state(*final(cg)) =~= sym0);
                }
                Ok(())
            },
            Statement::Ret(expr) => {
                let before = cg.expr_stack.len();
                match self.visit_expr(func, stmt, expr, cg) {
                    Ok(()) => {},
                    Err(e) => {
                        proof {
                            lemma_expr_frame_stmt(*old(cg), *final(cg));
                        }
                        return Err(e);
                    },
                }
                if cg.expr_stack.len() == before {
                    proof {
                        lemma_expr_frame_stmt(*old(cg), *cg);
                    }
                    return Err(CompileError::new(ErrorKind::CodegenFailure));
                }
                let ghost m1 = *cg;
                let value = match cg.pop_value() {
                    Some(v) => v,
                    None => {
                        proof {
                            assert(false);
                        }
                        return Err(CompileError::new(ErrorKind::CodegenFailure));
                    },
                };
                cg.emit(EInstr::Ret { val: value.value });
                let _ = cg.clear_expr_table();
                proof {
                    lemma_calls_wf_grow_auto(m1, *final(cg));
                    lemma_grew_trans(*old(cg), m1, *final(cg));
                    lemma_expr_frame_stmt(*old(cg), *final(cg));
                    let ap = old(cg).appended(final(cg));
                    assert(ap =~= old(cg).appended(&m1) + seq![
                        EInstr::Ret { val: value.value },
                    ]);
                    crate::backend::lemma_ret_count_append(
                        old(cg).appended(&m1),
                        seq![EInstr::Ret { val: value.value }],
                    );
                    crate::backend::lemma_ret_count_no_rets(old(cg).appended(&m1));
                    lemma_ret_count_single(EInstr::Ret { val: value.value });
                    assert(ap.last() == EInstr::Ret { val: value.value });
                    assert(sym_state(*final(cg)) =~= sym0);
                    assert(ap.drop_last() =~= old(cg).appended(&m1));
                    assert(m1.expr_stack@.skip(old(cg).expr_stack@.len() as int)
                        =~= Seq::empty().push(value));
                    assert(emits_expr(
                        *expr,
                        old(cg).symbol_table,
                        old(cg).function_table,
                        struct_state(*old(cg)),
                        ap.drop_last(),
                        Seq::empty().push(value),
                    ));
                }
                Ok(())
            },
            Statement::Definition(id, expr) => {
                let before = cg.expr_stack.len();
                match self.visit_expr(func, stmt, expr, cg) {
                    Ok(()) => {},
                    Err(e) => {
                        proof {
                            lemma_expr_frame_stmt(*old(cg), *final(cg));
                        }
                        return Err(e);
                    },
                }
                if cg.expr_stack.len() == before {
                    proof {
                        lemma_expr_frame_stmt(*old(cg), *cg);
                    }
                    return Err(CompileError::new(ErrorKind::CodegenFailure));
                }
                let ghost m1 = *cg;
                let value = match cg.pop_value() {
                    Some(v) => v,
                    None => {
                        proof {
                            assert(false);
                        }
                        return Err(CompileError::new(ErrorKind::CodegenFailure));
                    },
                };
                let ghost ma = *cg;
                let slot: BasicValue = if let BasicValueType::Pointer = value.ty {
                    // A fresh record value is already a pointer to its
                    // own storage: bind it directly.
                    value
                } else {
                    let dst = self.generate_number();
                    cg.emit(EInstr::Alloca { dst, ty: EType::IntTy });
                    let ghost mb = *cg;
                    cg.emit(EInstr::Store { val: value.value, ptr: EValue::Reg(dst) });
                    proof {
                        lemma_calls_wf_grow_auto(ma, mb);
                        lemma_calls_wf_grow_auto(mb, *cg);
                        lemma_grew_trans(ma, mb, *cg);
                        lemma_grew_trans(*old(cg), ma, *cg);
                    }
                    BasicValue { ty: BasicValueType::Pointer, value: EValue::Reg(dst) }
                };
                proof {
                    assert(sym_state(*cg) =~= sym0);
                }
                match cg.symbol_table.insert(id.get_name(), (id.clone(), slot)) {
                    Ok(()) => {},
                    Err(e) => {
                        proof {
                            lemma_expr_frame_stmt(*old(cg), *final(cg));
                            assert(sym0.dom().contains(id.id@));
                        }
                        return Err(e);
                    },
                }
                let _ = cg.clear_expr_table();
                proof {
                    lemma_expr_frame_stmt(*old(cg), *final(cg));
                    assert(!sym0.dom().contains(id.id@));
                    assert(sym_state(*final(cg)) =~= stmt_sym_after(*stmt, sym0)) by {
                        assert(final(cg).symbol_table.spec_get(id.id@) is Some);
                        assert(final(cg).symbol_table.spec_get(id.id@).unwrap().0@ == id@);
                        assert(final(cg).symbol_table.spec_get(id.id@).unwrap().1.ty
                            == BasicValueType::Pointer);
                    }
                    let ap = old(cg).appended(final(cg));
                    assert(m1.expr_stack@.skip(old(cg).expr_stack@.len() as int)
                        =~= Seq::empty().push(value));
                    if value.ty is Pointer {
                        assert(ap =~= old(cg).appended(&m1));
                        assert(emits_expr(
                            *expr,
                            old(cg).symbol_table,
                            old(cg).function_table,
                            struct_state(*old(cg)),
                            ap,
                            Seq::empty().push(value),
                        ));
                    } else {
                        assert(ap.subrange(0, ap.len() - 2) =~= old(cg).appended(&m1));
                        assert(ap[ap.len() - 2] == ma.appended(final(cg))[0]);
                        assert(ap.last() == ma.appended(final(cg))[1]);
                        assert(emits_expr(
                            *expr,
                            old(cg).symbol_table,
                            old(cg).function_table,
                            struct_state(*old(cg)),
                            ap.subrange(0, ap.len() - 2),
                            Seq::empty().push(value),
                        ));
                    }
                    assert(final(cg).symbol_table.spec_get(id.id@).unwrap().1 == slot);
                }
                Ok(())
            },
            Statement::Assign(id, expr) => {
                let before = cg.expr_stack.len();
                match self.visit_expr(func, stmt, expr, cg) {
                    Ok(()) => {},
                    Err(e) => {
                        proof {
                            lemma_expr_frame_stmt(*old(cg), *final(cg));
                        }
                        return Err(e);
                    },
                }
                if cg.expr_stack.len() == before {
                    proof {
                        lemma_expr_frame_stmt(*old(cg), *cg);
                    }
                    return Err(CompileError::new(ErrorKind::CodegenFailure));
                }
                let ghost m1 = *cg;
                let value = match cg.pop_value() {
                    Some(v) => v,
                    None => {
                        proof {
                            assert(false);
                        }
                        return Err(CompileError::new(ErrorKind::CodegenFailure));
                    },
                };
                let picked: (BasicValue, Option<String>) = match cg.symbol_table.get(
                    id.get_name(),
                ) {
                    Some(entry) => {
                        let bv = entry.1;
                        let sty: Option<String> = match &entry.0.ty {
                            Some(DataType::Struct(b)) => Some(b.get_name().clone()),
                            _ => None,
                        };
                        (bv, sty)
                    },
                    None => {
                        proof {
                            lemma_expr_frame_stmt(*old(cg), *cg);
                        }
                        return Err(
                            CompileError::new(
                                ErrorKind::SymbolNotDefined(id.get_name().clone()),
                            ),
                        );
                    },
                };
                let (bv, sty) = picked;
                if !(matches!(bv.ty, BasicValueType::Pointer)) {
                    proof {
                        lemma_expr_frame_stmt(*old(cg), *cg);
                    }
                    return Err(CompileError::new(ErrorKind::CodegenFailure));
                }
                match id.get_field() {
                    None => {
                        let ghost ma = *cg;
                        cg.emit(EInstr::Store { val: value.value, ptr: bv.value });
                        proof {
                            lemma_calls_wf_grow_auto(ma, *cg);
                            lemma_grew_trans(*old(cg), ma, *cg);
                            assert(crate::ast::chain_of(*id) =~= Seq::<Seq<char>>::empty());
                        }
                    },
                    Some(f) => {
                        let sname = match sty {
                            Some(n) => n,
                            None => {
                                proof {
                                    lemma_expr_frame_stmt(*old(cg), *cg);
                                }
                                return Err(CompileError::new(ErrorKind::CodegenFailure));
                            },
                        };
                        let ghost m2 = *cg;
                        proof {
                            assert(struct_state(m2) =~= sts0);
                        }
                        let fptr = match self.resolve_field_chain(cg, bv.value, &sname, f) {
                            Ok(p) => p,
                            Err(e) => {
                                proof {
                                    lemma_grew_trans(*old(cg), m2, *cg);
                                    lemma_expr_frame_stmt(*old(cg), *cg);
                                }
                                return Err(e);
                            },
                        };
                        let ghost m3 = *cg;
                        proof {
                            lemma_grew_trans(*old(cg), m2, m3);
                        }
                        cg.emit(EInstr::Store { val: value.value, ptr: fptr });
                        proof {
                            lemma_calls_wf_grow_auto(m3, *cg);
                            lemma_grew_trans(*old(cg), m3, *cg);
                            let apx = old(cg).appended(cg);
                            let k = old(cg).appended(&m1).len() as int;
                            assert(apx.subrange(k, apx.len() - 1) =~= m2.appended(&m3));
                            assert(apx.last() == m3.appended(cg)[0]);
                            assert(id@.chain =~= seq![f.id@] + crate::ast::chain_of(**f));
                            let en = old(cg).symbol_table.spec_get(id.id@).unwrap();
                            assert(en.1 == bv);
                            assert(en.0@.ty matches Some(TyView::StructTy(sn)) && sn
                                == sname@);
                            assert(gep_chain(
                                apx.subrange(k, apx.len() - 1),
                                bv.value,
                                id@.chain,
                                sname@,
                                struct_state(*old(cg)),
                                fptr,
                            ));
                        }
                    },
                }
                let _ = cg.clear_expr_table();
                proof {
                    lemma_expr_frame_stmt(*old(cg), *final(cg));
                    assert(sym_state(*final(cg)) =~= sym0);
                    let ap = old(cg).appended(final(cg));
                    let k = old(cg).appended(&m1).len() as int;
                    assert(ap.subrange(0, k) =~= old(cg).appended(&m1));
                    assert(m1.expr_stack@.skip(old(cg).expr_stack@.len() as int)
                        =~= Seq::empty().push(value));
                    assert(emits_expr(
                        *expr,
                        old(cg).symbol_table,
                        old(cg).function_table,
                        struct_state(*old(cg)),
                        ap.subrange(0, k),
                        Seq::empty().push(value),
                    ));
                    if id@.chain.len() == 0 {
                        assert(k == ap.len() - 1);
                        assert(ap.last() == (EInstr::Store { val: value.value, ptr: bv.value }));
                    }
                }
                Ok(())
            },
            Statement::Conditional(condition, then_stmts, else_stmts) => {
                let before = cg.expr_stack.len();
                match self.visit_expr(func, stmt, condition, cg) {
                    Ok(()) => {},
                    Err(e) => {
                        proof {
                            lemma_expr_frame_stmt(*old(cg), *final(cg));
                        }
                        return Err(e);
                    },
                }
                if cg.expr_stack.len() == before {
                    proof {
                        lemma_expr_frame_stmt(*old(cg), *cg);
                    }
                    return Err(CompileError::new(ErrorKind::CodegenFailure));
                }
                let ghost me = *cg;
                let cond_value = match cg.pop_value() {
                    Some(v) => v,
                    None => {
                        proof {
                            assert(false);
                        }
                        return Err(CompileError::new(ErrorKind::CodegenFailure));
                    },
                };
                let _ = cg.clear_expr_table();
                let ghost m1 = *cg;
                proof {
                    lemma_expr_frame_stmt(*old(cg), m1);
                }
                let then_idx = cg.append_block(String::from_str("then"));
                let ghost m2 = *cg;
                proof {
                    lemma_frame_after_append(m1, m2);
                    lemma_stmt_frame_trans(*old(cg), m1, m2);
                }
                let has_else = match else_stmts {
                    Some(_) => true,
                    None => false,
                };
                let else_idx: usize = if has_else {
                    let e = cg.append_block(String::from_str("else"));
                    proof {
                        lemma_frame_after_append(m2, *cg);
                        lemma_stmt_frame_trans(*old(cg), m2, *cg);
                    }
                    e
                } else {
                    0
                };
                let ghost m3 = *cg;
                let resume_idx = cg.append_block(String::from_str("resume"));
                let ghost m4 = *cg;
                proof {
                    lemma_frame_after_append(m3, m4);
                    lemma_stmt_frame_trans(*old(cg), m3, m4);
                }
                let false_target = if has_else {
                    else_idx
                } else {
                    resume_idx
                };
                cg.emit(
                    EInstr::CondBr {
                        cond: cond_value.value,
                        then_dest: then_idx,
                        else_dest: false_target,
                    },
                );
                let ghost m5 = *cg;
                proof {
                    lemma_calls_wf_grow_auto(m4, m5);
                    lemma_expr_frame_stmt(m4, m5);
                    lemma_stmt_frame_trans(*old(cg), m4, m5);
                }
                cg.cur_block = then_idx;
                let ghost m6 = *cg;
                let ghost fidx = old(cg).cur_func as int;
                let ghost bidx = old(cg).cur_block as int;
                let ghost lcount = old(cg).module.functions@[fidx].blocks@.len() as int;
                let ghost frozen = m6.module.functions@[fidx].blocks@[bidx];
                proof {
                    assert(stmt_frame(*old(cg), m6));
                    assert(sym_state(m6) =~= sym0);
                    assert(then_stmts@.skip(0) =~= then_stmts@);
                    assert(then_idx == lcount);
                    assert(false_target == lcount + 1);
                    assert(frozen.instrs@.subrange(
                        old(cg).cur_instrs().len() as int,
                        frozen.instrs@.len() - 1,
                    ) =~= old(cg).appended(&me));
                    assert(frozen.instrs@.last() == m4.appended(&m5)[0]);
                    assert(me.expr_stack@.skip(old(cg).expr_stack@.len() as int)
                        =~= Seq::empty().push(cond_value));
                    assert(emits_expr(
                        *condition,
                        old(cg).symbol_table,
                        old(cg).function_table,
                        struct_state(*old(cg)),
                        frozen.instrs@.subrange(
                            old(cg).cur_instrs().len() as int,
                            frozen.instrs@.len() - 1,
                        ),
                        Seq::empty().push(cond_value),
                    ));
                    assert(m6.module.functions@[fidx].blocks@[lcount].label@ == "then"@);
                    if has_else {
                        assert(m6.module.functions@[fidx].blocks@[lcount + 1].label@
                            == "else"@);
                        assert(m6.module.functions@[fidx].blocks@[lcount + 2].label@
                            == "resume"@);
                    } else {
                        assert(m6.module.functions@[fidx].blocks@[lcount + 1].label@
                            == "resume"@);
                    }
                }
                let mut i: usize = 0;
                while i < then_stmts.len()
                    invariant
                        0 <= i <= then_stmts@.len(),
                        cg.pos_wf(),
                        cg.cur_func == old(cg).cur_func,
                        stmt_frame(*old(cg), *cg),
                        resume_idx < cg.module.functions@[fidx].blocks@.len(),
                        (has_else ==> else_idx < cg.module.functions@[fidx].blocks@.len()),
                        cg.cur_block >= lcount,
                        cg.module.functions@[fidx].blocks@[bidx] == frozen,
                        cg.module.functions@[fidx].blocks@.len() >= lcount + 2,
                        (has_else ==> cg.module.functions@[fidx].blocks@.len() >= lcount + 3),
                        cg.module.functions@[fidx].blocks@[lcount].label@ == "then"@,
                        (has_else ==> cg.module.functions@[fidx].blocks@[lcount + 1].label@
                            == "else"@ && cg.module.functions@[fidx].blocks@[lcount
                            + 2].label@ == "resume"@),
                        (!has_else ==> cg.module.functions@[fidx].blocks@[lcount + 1].label@
                            == "resume"@),
                        cg.expr_stack@.len() == 0,
                        fn_state(*cg) =~= ft0,
                        struct_state(*cg) =~= sts0,
                        stmts_emit_ok(then_stmts@, sym0, ft0, sts0) <==> stmts_emit_ok(
                            then_stmts@.skip(i as int),
                            sym_state(*cg),
                            ft0,
                            sts0,
                        ),
                        stmts_sym_after(then_stmts@, sym0) =~= stmts_sym_after(
                            then_stmts@.skip(i as int),
                            sym_state(*cg),
                        ),
                    decreases then_stmts@.len() - i,
                {
                    let ghost rest = then_stmts@.skip(i as int);
                    proof {
                        assert(rest[0] == then_stmts@[i as int]);
                        assert(rest.skip(1) =~= then_stmts@.skip(i + 1 as int));
                        assert(decreases_to!(*stmt => then_stmts@[i as int]));
                    }
                    let ghost mpre = *cg;
                    let rs = self.visit_statement(func, &then_stmts[i], cg);
                    proof {
                        lemma_stmt_frame_trans(*old(cg), mpre, *cg);
                    }
                    match rs {
                        Ok(()) => {},
                        Err(e) => {
                            return Err(e);
                        },
                    }
                    i = i + 1;
                }
                let ghost m7 = *cg;
                proof {
                    assert(then_stmts@.skip(then_stmts@.len() as int) =~= Seq::<
                        Statement,
                    >::empty());
                    assert(stmts_emit_ok(then_stmts@, sym0, ft0, sts0));
                    assert(sym_state(m7) =~= stmts_sym_after(then_stmts@, sym0));
                }
                if !cg.cur_terminated() {
                    cg.emit(EInstr::Br { dest: resume_idx });
                    proof {
                        lemma_calls_wf_grow_auto(m7, *cg);
                        lemma_expr_frame_stmt(m7, *cg);
                        lemma_stmt_frame_trans(*old(cg), m7, *cg);
                    }
                }
                if has_else {
                    let ghost m8 = *cg;
                    cg.cur_block = else_idx;
                    let ghost m9 = *cg;
                    proof {
                        assert(stmt_frame(*old(cg), m9));
                        assert(sym_state(m9) =~= sym_state(m8));
                    }
                    let else_body = match else_stmts {
                        Some(b) => b,
                        None => {
                            proof {
                                assert(false);
                            }
                            return Err(CompileError::new(ErrorKind::CodegenFailure));
                        },
                    };
                    let ghost sym_t = sym_state(m9);
                    proof {
                        assert(sym_t =~= stmts_sym_after(then_stmts@, sym0));
                        assert(else_body@.skip(0) =~= else_body@);
                    }
                    let mut j: usize = 0;
                    while j < else_body.len()
                        invariant
                            0 <= j <= else_body@.len(),
                            cg.pos_wf(),
                            cg.cur_func == old(cg).cur_func,
                            stmt_frame(*old(cg), *cg),
                            resume_idx < cg.module.functions@[fidx].blocks@.len(),
                            cg.cur_block >= lcount,
                            cg.module.functions@[fidx].blocks@[bidx] == frozen,
                            cg.module.functions@[fidx].blocks@.len() >= lcount + 3,
                            cg.module.functions@[fidx].blocks@[lcount].label@ == "then"@,
                            cg.module.functions@[fidx].blocks@[lcount + 1].label@ == "else"@,
                            cg.module.functions@[fidx].blocks@[lcount + 2].label@
                                == "resume"@,
                            cg.expr_stack@.len() == 0,
                            fn_state(*cg) =~= ft0,
                            struct_state(*cg) =~= sts0,
                            stmts_emit_ok(else_body@, sym_t, ft0, sts0) <==> stmts_emit_ok(
                                else_body@.skip(j as int),
                                sym_state(*cg),
                                ft0,
                                sts0,
                            ),
                            stmts_sym_after(else_body@, sym_t) =~= stmts_sym_after(
                                else_body@.skip(j as int),
                                sym_state(*cg),
                            ),
                        decreases else_body@.len() - j,
                    {
                        let ghost rest = else_body@.skip(j as int);
                        proof {
                            assert(rest[0] == else_body@[j as int]);
                            assert(rest.skip(1) =~= else_body@.skip(j + 1 as int));
                            assert(decreases_to!(*stmt => else_body@[j as int]));
                        }
                        let ghost mpre = *cg;
                        let rs = self.visit_statement(func, &else_body[j], cg);
                        proof {
                            lemma_stmt_frame_trans(*old(cg), mpre, *cg);
                        }
                        match rs {
                            Ok(()) => {},
                            Err(e) => {
                                return Err(e);
                            },
                        }
                        j = j + 1;
                    }
                    proof {
                        assert(else_body@.skip(else_body@.len() as int) =~= Seq::<
                            Statement,
                        >::empty());
                        assert(stmts_emit_ok(else_body@, sym_t, ft0, sts0));
                        assert(sym_state(*cg) =~= stmts_sym_after(else_body@, sym_t));
                    }
                    let ghost m10 = *cg;
                    if !cg.cur_terminated() {
                        cg.emit(EInstr::Br { dest: resume_idx });
                        proof {
                            lemma_calls_wf_grow_auto(m10, *cg);
                            lemma_expr_frame_stmt(m10, *cg);
                            lemma_stmt_frame_trans(*old(cg), m10, *cg);
                        }
                    }
                }
                let ghost m11 = *cg;
                cg.cur_block = resume_idx;
                proof {
                    assert(stmt_frame(*old(cg), *final(cg)));
                    assert(sym_state(*final(cg)) =~= sym_state(m11));
                    assert(sym_state(*final(cg)) =~= stmt_sym_after(*stmt, sym0));
                    assert(stmt_emit_ok(*stmt, sym0, ft0, sts0));
                    assert(final(cg).module.functions@[fidx].blocks@[bidx] == frozen);
                    let fin = final(cg).module.functions@[fidx].blocks@[bidx].instrs@;
                    assert(fin.subrange(
                        old(cg).cur_instrs().len() as int,
                        fin.len() - 1,
                    ) =~= old(cg).appended(&me));
                    assert(emits_expr(
                        *condition,
                        old(cg).symbol_table,
                        old(cg).function_table,
                        struct_state(*old(cg)),
                        fin.subrange(old(cg).cur_instrs().len() as int, fin.len() - 1),
                        Seq::empty().push(cond_value),
                    ));
                    if has_else {
                        assert(final(cg).cur_block == lcount + 2);
                    } else {
                        assert(final(cg).cur_block == lcount + 1);
                    }
                }
                Ok(())
            },
        }
    }
}


impl CodegenVisitor {
    pub fn visit_program(&mut self, _program: &Program, _codegen: &mut Codegen) -> (r: Result<
        (),
        CompileError,
    >)
        ensures
            r is Ok,
            *final(_codegen) == *old(_codegen),
    {
        Ok(())
    }

    /// Register a record type: remember its declaration and add its
    /// backend shape to the module.  A name may be registered once.
    pub fn visit_struct(&mut self, stru: &Struct, cg: &mut Codegen) -> (r: Result<
        (),
        CompileError,
    >)
        ensures
            final(cg).module.functions == old(cg).module.functions,
            final(cg).module.name == old(cg).module.name,
            final(cg).module.target == old(cg).module.target,
            final(cg).cur_func == old(cg).cur_func,
            final(cg).cur_block == old(cg).cur_block,
            final(cg).symbol_table == old(cg).symbol_table,
            final(cg).function_table == old(cg).function_table,
            final(cg).block_table == old(cg).block_table,
            final(cg).expr_stack == old(cg).expr_stack,
            old(cg).wf() ==> final(cg).wf(),
            r is Ok <==> !old(cg).struct_table.spec_contains(stru.name.id@),
            r is Ok ==> struct_state(*final(cg)) == struct_state(*old(cg)).insert(
                stru.name.id@,
                stru@.fields,
            ),
            r is Err ==> *final(cg) == *old(cg),
    {
        if cg.struct_table.lookup_symbol(stru.name.get_name()) {
            return Err(
                CompileError::new(
                    ErrorKind::SymbolAlreadyDefined(stru.name.get_name().clone()),
                ),
            );
        }
        let mut fields: Vec<EType> = Vec::new();
        let mut i: usize = 0;
        while i < stru.fields.len()
            invariant
                0 <= i <= stru.fields@.len(),
            decreases stru.fields@.len() - i,
        {
            let fty: EType = match &stru.fields[i].ty {
                DataType::Int => EType::IntTy,
                DataType::Struct(b) => EType::StructTy(b.get_name().clone()),
            };
            fields.push(fty);
            i = i + 1;
        }
        cg.module.structs.push(EStruct { name: stru.name.get_name().clone(), fields });
        match cg.struct_table.insert(stru.name.get_name(), stru.clone()) {
            Ok(()) => {},
            Err(_) => {
                proof {
                    assert(false);
                }
                return Err(CompileError::new(ErrorKind::CodegenFailure));
            },
        }
        proof {
            assert(struct_state(*final(cg)) =~= struct_state(*old(cg)).insert(
                stru.name.id@,
                stru@.fields,
            ));
        }
        Ok(())
    }

    /// Declare a function: add an empty-bodied function with its
    /// signature to the module, record its entry block, and register the
    /// signature, so that calls to it resolve before its body exists.
    pub fn visit_func(&mut self, func: &Func, cg: &mut Codegen) -> (r: Result<(), CompileError>)
        requires
            func.pars_typed(),
        ensures
            final(cg).cur_func == old(cg).cur_func,
            final(cg).cur_block == old(cg).cur_block,
            final(cg).symbol_table == old(cg).symbol_table,
            final(cg).struct_table == old(cg).struct_table,
            final(cg).expr_stack == old(cg).expr_stack,
            final(cg).module.name == old(cg).module.name,
            final(cg).module.target == old(cg).module.target,
            final(cg).module.structs == old(cg).module.structs,
            old(cg).wf() ==> final(cg).wf(),
            match r {
                Ok(()) => {
                    &&& !old(cg).function_table.spec_contains(func.id.id@)
                    &&& !old(cg).block_table.spec_contains(func.id.id@)
                    &&& final(cg).module.functions@.len() == old(cg).module.functions@.len() + 1
                    &&& final(cg).module.functions@.subrange(
                        0,
                        old(cg).module.functions@.len() as int,
                    ) == old(cg).module.functions@
                    &&& final(cg).module.functions@.last().name@ == func.id.id@
                    &&& final(cg).module.functions@.last().params@.len() == func.pars@.len()
                    &&& (forall|k: int|
                        0 <= k < func.pars@.len() ==> final(cg).module.functions@.last().params@[k] == EType::IntTy)
                    &&& ((final(cg).module.functions@.last().ret is Some) <==> (func.ret_ty
                        is Some))
                    &&& final(cg).module.functions@.last().blocks@.len() == 1
                    &&& final(cg).module.functions@.last().blocks@[0].instrs@.len() == 0
                    &&& final(cg).function_table.spec_get(func.id.id@) is Some
                    &&& final(cg).block_table.spec_get(func.id.id@) == Some(
                        (old(cg).module.functions@.len() as usize, 0usize),
                    )
                    &&& (forall|n: Seq<char>|
                        n != func.id.id@ ==> final(cg).function_table.spec_get(n) == old(cg).function_table.spec_get(n))
                    &&& (forall|n: Seq<char>|
                        n != func.id.id@ ==> final(cg).block_table.spec_get(n) == old(cg).block_table.spec_get(n))
                    &&& fn_state(*final(cg)) == fn_state(*old(cg)).insert(
                        func.id.id@,
                        (func.pars@.len() as int, func.ret_ty is Some),
                    )
                },
                Err(e) => true,
            },
            r is Ok <==> (func_declarable(*func) && !old(cg).function_table.spec_contains(
                func.id.id@,
            ) && !old(cg).block_table.spec_contains(func.id.id@)),
    {
        let signature = func.get_signature();
        proof {
            assert(crate::ast::ty_views(signature.spec_args_ty()).len()
                == signature.spec_args_ty().len());
            assert(func.spec_arg_views().len() == func.pars@.len());
            assert(signature.spec_args_ty().len() == func.pars@.len());
            assert((signature.spec_ret_ty() matches Some(DataType::Struct(_))) <==> (
            crate::ast::ty_opt_view(func.ret_ty) matches Some(TyView::StructTy(_))));
            if sig_intable(signature) {
                assert forall|i: int|
                    0 <= i < func.pars@.len() implies (#[trigger] func.pars@[i]).ty.unwrap()@
                    == TyView::IntTy by {
                    assert(signature.spec_args_ty()[i] is Int);
                    assert(crate::ast::ty_views(signature.spec_args_ty())[i]
                        == signature.spec_args_ty()[i]@);
                    assert(func.spec_arg_views()[i] == func.pars@[i].ty.unwrap()@);
                }
                assert(func_declarable(*func));
            }
            if func_declarable(*func) {
                assert forall|i: int|
                    0 <= i < signature.spec_args_ty().len() implies (
                #[trigger] signature.spec_args_ty()[i]) is Int by {
                    assert(func.pars@[i].ty.unwrap()@ == TyView::IntTy);
                    assert(crate::ast::ty_views(signature.spec_args_ty())[i]
                        == signature.spec_args_ty()[i]@);
                    assert(func.spec_arg_views()[i] == func.pars@[i].ty.unwrap()@);
                }
                assert(sig_intable(signature));
            }
        }
        let parts = match self.get_function_ty_by_function_signature(&signature) {
            Ok(p) => p,
            Err(e) => {
                return Err(e);
            },
        };
        let (params, ret) = parts;
        if cg.function_table.lookup_symbol(func.id.get_name()) {
            return Err(
                CompileError::new(ErrorKind::SymbolAlreadyDefined(func.id.get_name().clone())),
            );
        }
        if cg.block_table.lookup_symbol(func.id.get_name()) {
            return Err(
                CompileError::new(ErrorKind::SymbolAlreadyDefined(func.id.get_name().clone())),
            );
        }
        let fidx = cg.module.functions.len();
        let mut blocks: Vec<EBlock> = Vec::new();
        blocks.push(EBlock { label: func.id.get_name().clone(), instrs: Vec::new() });
        let name = func.id.get_name().clone();
        cg.module.functions.push(EFunction { name, params, ret, blocks });
        match cg.block_table.insert(func.id.get_name(), (fidx, 0)) {
            Ok(()) => {},
            Err(_) => {
                proof {
                    assert(false);
                }
                return Err(CompileError::new(ErrorKind::CodegenFailure));
            },
        }
        match cg.function_table.insert(func.id.get_name(), (signature, fidx)) {
            Ok(()) => {},
            Err(_) => {
                proof {
                    assert(false);
                }
                return Err(CompileError::new(ErrorKind::CodegenFailure));
            },
        }
        proof {
            assert(final(cg).module.functions@.subrange(
                0,
                old(cg).module.functions@.len() as int,
            ) =~= old(cg).module.functions@);
            if old(cg).wf() {
                assert forall|n: Seq<char>|
                    (#[trigger] final(cg).function_table.spec_get(n)) is Some implies ({
                    let e = final(cg).function_table.spec_get(n).unwrap();
                    e.1 < final(cg).module.functions@.len()
                        && final(cg).module.functions@[e.1 as int].name@ == n && final(cg).module.functions@[e.1 as int].params@.len() == e.0.spec_args_ty().len() && ((
                    final(cg).module.functions@[e.1 as int].ret is Some) <==> (e.0.spec_ret_ty()
                        is Some))
                }) by {
                    if n != func.id.id@ {
                        assert(old(cg).function_table.spec_get(n) == final(cg).function_table.spec_get(n));
                        let e0 = old(cg).function_table.spec_get(n).unwrap();
                        assert(final(cg).module.functions@[e0.1 as int] == old(cg).module.functions@[e0.1 as int]);
                    }
                }
                assert forall|ff: int, bb: int, j: int|
                    0 <= ff < final(cg).module.functions@.len() && 0 <= bb < final(cg).module.functions@[ff].blocks@.len() && 0 <= j < final(cg).module.functions@[ff].blocks@[bb].instrs@.len() implies call_ok(
                    final(cg).module,
                    #[trigger] final(cg).module.functions@[ff].blocks@[bb].instrs@[j],
                ) by {
                    if ff < old(cg).module.functions@.len() {
                        assert(final(cg).module.functions@[ff] == old(cg).module.functions@[ff]);
                        let i = final(cg).module.functions@[ff].blocks@[bb].instrs@[j];
                        assert(call_ok(old(cg).module, i));
                        match i {
                            EInstr::Call { callee, args, .. } => {
                                let k = choose|k: int|
                                    0 <= k < old(cg).module.functions@.len() && (
                                    #[trigger] old(cg).module.functions@[k]).name@ == callee@
                                        && args@.len()
                                        == old(cg).module.functions@[k].params@.len();
                                assert(final(cg).module.functions@[k] == old(cg).module.functions@[k]);
                            },
                            _ => {},
                        }
                    }
                }
            }
        }
        Ok(())
    }

    /// Bind a parameter: the n-th parameter accessor of the enclosing
    /// backend function, under the parameter's name.
    pub fn visit_param(&mut self, func: &Func, param: &Identifier, cg: &mut Codegen) -> (r: Result<
        (),
        CompileError,
    >)
        ensures
            final(cg).module == old(cg).module,
            final(cg).cur_func == old(cg).cur_func,
            final(cg).cur_block == old(cg).cur_block,
            final(cg).function_table == old(cg).function_table,
            final(cg).block_table == old(cg).block_table,
            final(cg).struct_table == old(cg).struct_table,
            final(cg).expr_stack == old(cg).expr_stack,
            old(cg).wf() ==> final(cg).wf(),
            r is Ok <==> !old(cg).symbol_table.spec_contains(param.id@),
            r is Ok ==> sym_state(*final(cg)) == sym_state(*old(cg)).insert(
                param.id@,
                (param@, BasicValueType::Int),
            ),
            r is Ok ==> (final(cg).symbol_table.spec_get(param.id@) matches Some(en) && en.0@
                == param@ && en.1 == (BasicValue {
                ty: BasicValueType::Int,
                value: EValue::Param(old(cg).symbol_table.spec_len() as usize),
            })),
            r is Ok ==> (forall|m: Seq<char>|
                m != param.id@ ==> final(cg).symbol_table.spec_get(m) == old(cg).symbol_table.spec_get(m)),
            r is Err ==> *final(cg) == *old(cg),
    {
        let n = cg.symbol_table.len();
        match cg.symbol_table.insert(
            param.get_name(),
            (
                param.clone(),
                BasicValue { ty: BasicValueType::Int, value: EValue::Param(n) },
            ),
        ) {
            Ok(()) => {
                proof {
                    assert(sym_state(*final(cg)) =~= sym_state(*old(cg)).insert(
                        param.id@,
                        (param@, BasicValueType::Int),
                    ));
                }
                Ok(())
            },
            Err(e) => Err(e),
        }
    }

    /// Point the builder at the entry block of the function, recorded
    /// when the function was declared.
    pub fn set_block_position_to_function(&mut self, func: &Func, cg: &mut Codegen) -> (r: Result<
        (),
        CompileError,
    >)
        ensures
            final(cg).module == old(cg).module,
            final(cg).same_tables(old(cg)),
            final(cg).expr_stack == old(cg).expr_stack,
            old(cg).wf() ==> final(cg).wf(),
            r is Ok <==> old(cg).block_table.spec_contains(func.id.id@),
            r is Ok ==> {
                let e = old(cg).block_table.spec_get(func.id.id@).unwrap();
                final(cg).cur_func == e.0 && final(cg).cur_block == e.1 && (old(cg).wf()
                    ==> final(cg).pos_wf())
            },
            r is Err ==> *final(cg) == *old(cg),
    {
        let pos: (usize, usize) = match cg.block_table.get(func.id.get_name()) {
            Some(p) => *p,
            None => {
                return Err(CompileError::new(ErrorKind::CodegenFailure));
            },
        };
        cg.cur_func = pos.0;
        cg.cur_block = pos.1;
        Ok(())
    }

    /// A function body that falls off its end without a terminator gets
    /// a synthesized void return, exactly when the declared return type
    /// is absent.
    pub fn synthesize_void_return(&mut self, func: &Func, cg: &mut Codegen)
        requires
            old(cg).pos_wf(),
        ensures
            final(cg).pos_wf(),
            old(cg).only_cur_block_grew(final(cg)),
            final(cg).same_tables(old(cg)),
            final(cg).expr_stack == old(cg).expr_stack,
            old(cg).wf() ==> final(cg).wf(),
            func.ret_ty is None ==> crate::backend::block_terminated(
                final(cg).module.functions@[final(cg).cur_func as int].blocks@[final(cg).cur_block as int],
            ),
            (func.ret_ty is Some || crate::backend::block_terminated(
                old(cg).module.functions@[old(cg).cur_func as int].blocks@[old(cg).cur_block as int],
            )) ==> final(cg).module == old(cg).module,
    {
        if func.ret_ty.is_none() && !cg.cur_terminated() {
            cg.emit(EInstr::RetVoid);
            proof {
                lemma_calls_wf_grow_auto(*old(cg), *final(cg));
            }
        } else {
            proof {
                lemma_frame_refl(*old(cg));
            }
        }
    }
}


/// Every function of the program declares a type for each parameter.
pub open spec fn program_pars_typed(p: Program) -> bool {
    forall|k: int| 0 <= k < p.functions@.len() ==> (#[trigger] p.functions@[k]).pars_typed()
}

/// A code generator that has not emitted anything yet.
pub open spec fn cg_fresh(cg: Codegen) -> bool {
    &&& cg.module.functions@.len() == 0
    &&& forall|n: Seq<char>| (#[trigger] cg.function_table.spec_get(n)) is None
    &&& forall|n: Seq<char>| (#[trigger] cg.block_table.spec_get(n)) is None
    &&& forall|n: Seq<char>| (#[trigger] cg.struct_table.spec_get(n)) is None
}


/// Name to field views, as registering the struct declarations in order
/// builds it.
pub open spec fn structs_map(ss: Seq<Struct>) -> Map<Seq<char>, Seq<FieldView>>
    decreases ss.len(),
{
    if ss.len() <= 0 {
        Map::empty()
    } else {
        structs_map(ss.drop_last()).insert(ss.last().name.id@, ss.last()@.fields)
    }
}

/// Name to (arity, returns a value), as declaring the functions in order
/// builds it.
pub open spec fn funcs_map(fs: Seq<Func>) -> Map<Seq<char>, (int, bool)>
    decreases fs.len(),
{
    if fs.len() <= 0 {
        Map::empty()
    } else {
        funcs_map(fs.drop_last()).insert(
            fs.last().id.id@,
            (fs.last().pars@.len() as int, fs.last().ret_ty is Some),
        )
    }
}

/// The symbol bindings after binding the parameters in order.
pub open spec fn pars_sym(ps: Seq<Identifier>) -> Map<Seq<char>, (IdView, BasicValueType)>
    decreases ps.len(),
{
    if ps.len() <= 0 {
        Map::empty()
    } else {
        pars_sym(ps.drop_last()).insert(
            ps.last().id@,
            (ps.last()@, BasicValueType::Int),
        )
    }
}

/// No two elements of the name sequence agree.
pub open spec fn names_distinct(ns: Seq<Seq<char>>) -> bool {
    forall|a: int, b: int| 0 <= a < b < ns.len() ==> ns[a] != ns[b]
}

pub open spec fn struct_names(ss: Seq<Struct>) -> Seq<Seq<char>> {
    ss.map(|i: int, s: Struct| s.name.id@)
}

pub open spec fn function_names(fs: Seq<Func>) -> Seq<Seq<char>> {
    fs.map(|i: int, f: Func| f.id.id@)
}

pub open spec fn par_names(ps: Seq<Identifier>) -> Seq<Seq<char>> {
    ps.map(|i: int, p: Identifier| p.id@)
}

/// When driving the code generation over the whole program succeeds:
/// struct and function names are unique, every function can be declared
/// to the backend, parameter names are unique within their function, and
/// every statement emits against the bindings its predecessors left.
pub open spec fn codegen_ok(p: Program) -> bool {
    &&& names_distinct(struct_names(p.structs@))
    &&& names_distinct(function_names(p.functions@))
    &&& (forall|k: int|
        0 <= k < p.functions@.len() ==> func_declarable(#[trigger] p.functions@[k]))
    &&& (forall|k: int|
        0 <= k < p.functions@.len() ==> names_distinct(
            par_names((#[trigger] p.functions@[k]).pars@),
        ))
    &&& (forall|k: int|
        0 <= k < p.functions@.len() ==> stmts_emit_ok(
            (#[trigger] p.functions@[k]).statements@,
            pars_sym(p.functions@[k].pars@),
            funcs_map(p.functions@),
            structs_map(p.structs@),
        ))
}


pub proof fn lemma_structs_map_dom(ss: Seq<Struct>, n: Seq<char>)
    ensures
        structs_map(ss).dom().contains(n) <==> (exists|j: int|
            0 <= j < ss.len() && (#[trigger] ss[j]).name.id@ == n),
    decreases ss.len(),
{
    if ss.len() > 0 {
        lemma_structs_map_dom(ss.drop_last(), n);
        if structs_map(ss).dom().contains(n) && ss.last().name.id@ != n {
            let j = choose|j: int|
                0 <= j < ss.drop_last().len() && (#[trigger] ss.drop_last()[j]).name.id@ == n;
            assert(ss[j].name.id@ == n);
        }
        if exists|j: int| 0 <= j < ss.len() && (#[trigger] ss[j]).name.id@ == n {
            let j = choose|j: int| 0 <= j < ss.len() && (#[trigger] ss[j]).name.id@ == n;
            if j < ss.len() - 1 {
                assert(ss.drop_last()[j].name.id@ == n);
            }
        }
    }
}

pub proof fn lemma_funcs_map_dom(fs: Seq<Func>, n: Seq<char>)
    ensures
        funcs_map(fs).dom().contains(n) <==> (exists|j: int|
            0 <= j < fs.len() && (#[trigger] fs[j]).id.id@ == n),
    decreases fs.len(),
{
    if fs.len() > 0 {
        lemma_funcs_map_dom(fs.drop_last(), n);
        if funcs_map(fs).dom().contains(n) && fs.last().id.id@ != n {
            let j = choose|j: int|
                0 <= j < fs.drop_last().len() && (#[trigger] fs.drop_last()[j]).id.id@ == n;
            assert(fs[j].id.id@ == n);
        }
        if exists|j: int| 0 <= j < fs.len() && (#[trigger] fs[j]).id.id@ == n {
            let j = choose|j: int| 0 <= j < fs.len() && (#[trigger] fs[j]).id.id@ == n;
            if j < fs.len() - 1 {
                assert(fs.drop_last()[j].id.id@ == n);
            }
        }
    }
}

pub proof fn lemma_pars_sym_dom(ps: Seq<Identifier>, n: Seq<char>)
    ensures
        pars_sym(ps).dom().contains(n) <==> (exists|j: int|
            0 <= j < ps.len() && (#[trigger] ps[j]).id@ == n),
    decreases ps.len(),
{
    if ps.len() > 0 {
        lemma_pars_sym_dom(ps.drop_last(), n);
        if pars_sym(ps).dom().contains(n) && ps.last().id@ != n {
            let j = choose|j: int|
                0 <= j < ps.drop_last().len() && (#[trigger] ps.drop_last()[j]).id@ == n;
            assert(ps[j].id@ == n);
        }
        if exists|j: int| 0 <= j < ps.len() && (#[trigger] ps[j]).id@ == n {
            let j = choose|j: int| 0 <= j < ps.len() && (#[trigger] ps[j]).id@ == n;
            if j < ps.len() - 1 {
                assert(ps.drop_last()[j].id@ == n);
            }
        }
    }
}

/// The traversal the backend uses: structs, then every function
/// declaration (prototype only, so forward calls resolve), then each
/// function's parameters and statements.
pub struct CodegenTraversal;

impl CodegenTraversal {
    /// Drive the code generation over the whole program, starting from a
    /// fresh state.  It succeeds exactly when the program satisfies
    /// `codegen_ok`; the module then declares exactly the program's
    /// functions, in order, each exactly once; every call site in it
    /// refers to a declared function with matching arity; and a void
    /// function whose body falls off the end received a synthesized void
    /// return.
    #[verifier::loop_isolation(false)]
    #[verifier::rlimit(100)]
    pub fn traverse(
        &mut self,
        visitor: &mut CodegenVisitor,
        program: &Program,
        codegen: &mut Codegen,
    ) -> (r: Result<(), CompileError>)
        requires
            program_pars_typed(*program),
            cg_fresh(*old(codegen)),
        ensures
            r is Ok <==> codegen_ok(*program),
            r is Ok ==> {
                &&& final(codegen).module.functions@.len() == program.functions@.len()
                &&& (forall|k: int|
                    0 <= k < program.functions@.len() ==> (
                    #[trigger] final(codegen).module.functions@[k]).name@
                        == program.functions@[k].id.id@)
                &&& (forall|a: int, b: int|
                    0 <= a < b < program.functions@.len() ==> (
                    #[trigger] final(codegen).module.functions@[a]).name@ != (
                    #[trigger] final(codegen).module.functions@[b]).name@)
                &&& module_calls_wf(final(codegen).module)
                &&& (forall|k: int|
                    0 <= k < program.functions@.len() && (
                    #[trigger] program.functions@[k]).ret_ty is None ==> exists|b: int|
                        0 <= b < final(codegen).module.functions@[k].blocks@.len()
                            && crate::backend::block_terminated(
                            #[trigger] final(codegen).module.functions@[k].blocks@[b],
                        ))
            },
    {
        let ghost fm = funcs_map(program.functions@);
        let ghost sm = structs_map(program.structs@);
        proof {
            assert(old(codegen).wf()) by {
                assert(forall|n: Seq<char>|
                    !((#[trigger] old(codegen).function_table.spec_get(n)) is Some));
                assert(forall|n: Seq<char>|
                    !((#[trigger] old(codegen).block_table.spec_get(n)) is Some));
            }
            assert(struct_state(*old(codegen)) =~= structs_map(program.structs@.take(0))) by {
                assert(program.structs@.take(0) =~= Seq::<Struct>::empty());
            }
        }
        match visitor.visit_program(program, codegen) {
            Ok(()) => {},
            Err(e) => {
                proof {
                    assert(false);
                }
                return Err(e);
            },
        }
        let mut si: usize = 0;
        while si < program.structs.len()
            invariant
                0 <= si <= program.structs@.len(),
                codegen.wf(),
                codegen.module.functions == old(codegen).module.functions,
                codegen.function_table == old(codegen).function_table,
                codegen.block_table == old(codegen).block_table,
                struct_state(*codegen) =~= structs_map(program.structs@.take(si as int)),
                names_distinct(struct_names(program.structs@.take(si as int))),
            decreases program.structs@.len() - si,
        {
            let ghost prefix = program.structs@.take(si as int);
            let rs = visitor.visit_struct(&program.structs[si], codegen);
            match rs {
                Ok(()) => {},
                Err(e) => {
                    proof {
                        let nm = program.structs@[si as int].name.id@;
                        lemma_structs_map_dom(prefix, nm);
                        let w = choose|j: int|
                            0 <= j < prefix.len() && (#[trigger] prefix[j]).name.id@ == nm;
                        assert(struct_names(program.structs@)[w] == nm);
                        assert(struct_names(program.structs@)[si as int] == nm);
                        assert(!names_distinct(struct_names(program.structs@)));
                    }
                    return Err(e);
                },
            }
            proof {
                let next = program.structs@.take(si + 1 as int);
                assert(next.drop_last() =~= prefix);
                assert(next.last() == program.structs@[si as int]);
                assert(struct_state(*codegen) =~= structs_map(next));
                let nm = program.structs@[si as int].name.id@;
                lemma_structs_map_dom(prefix, nm);
                assert forall|a: int, b: int|
                    0 <= a < b < next.len() implies struct_names(next)[a]
                    != struct_names(next)[b] by {
                    if b == si as int {
                        assert(struct_names(prefix)[a] == next[a].name.id@);
                    } else {
                        assert(struct_names(prefix)[a] == next[a].name.id@);
                        assert(struct_names(prefix)[b] == next[b].name.id@);
                    }
                }
            }
            si = si + 1;
        }
        proof {
            assert(program.structs@.take(program.structs@.len() as int) =~= program.structs@);
        }
        // Register all functions first: a function need not be declared
        // before its caller.
        let mut fi: usize = 0;
        proof {
            assert(fn_state(*codegen) =~= funcs_map(program.functions@.take(0))) by {
                assert(program.functions@.take(0) =~= Seq::<Func>::empty());
            }
        }
        while fi < program.functions.len()
            invariant
                0 <= fi <= program.functions@.len(),
                codegen.wf(),
                codegen.module.functions@.len() == fi,
                struct_state(*codegen) =~= structs_map(program.structs@),
                fn_state(*codegen) =~= funcs_map(program.functions@.take(fi as int)),
                forall|k: int|
                    0 <= k < fi ==> (#[trigger] codegen.module.functions@[k]).name@
                        == program.functions@[k].id.id@,
                forall|a: int, b: int|
                    0 <= a < b < fi ==> (#[trigger] codegen.module.functions@[a]).name@ != (
                    #[trigger] codegen.module.functions@[b]).name@,
                forall|k: int|
                    0 <= k < fi ==> (#[trigger] codegen.block_table.spec_get(
                        program.functions@[k].id.id@,
                    )) == Some((k as usize, 0usize)),
                forall|k: int|
                    0 <= k < fi ==> (#[trigger] codegen.function_table.spec_get(
                        program.functions@[k].id.id@,
                    )) is Some,
                forall|n: Seq<char>|
                    (#[trigger] codegen.block_table.spec_get(n)) is Some
                        <==> codegen.function_table.spec_get(n) is Some,
                forall|k: int|
                    0 <= k < fi ==> func_declarable(#[trigger] program.functions@[k]),
            decreases program.functions@.len() - fi,
        {
            let ghost pre = *codegen;
            let ghost prefix = program.functions@.take(fi as int);
            let rf = visitor.visit_func(&program.functions[fi], codegen);
            match rf {
                Ok(()) => {},
                Err(e) => {
                    proof {
                        let nm = program.functions@[fi as int].id.id@;
                        if !func_declarable(program.functions@[fi as int]) {
                            assert(!codegen_ok(*program));
                        } else {
                            assert(pre.function_table.spec_contains(nm));
                            lemma_funcs_map_dom(prefix, nm);
                            let w = choose|j: int|
                                0 <= j < prefix.len() && (#[trigger] prefix[j]).id.id@ == nm;
                            assert(function_names(program.functions@)[w] == nm);
                            assert(function_names(program.functions@)[fi as int] == nm);
                            assert(!names_distinct(function_names(program.functions@)));
                        }
                    }
                    return Err(e);
                },
            }
            proof {
                let next = program.functions@.take(fi + 1 as int);
                assert(next.drop_last() =~= prefix);
                assert(next.last() == program.functions@[fi as int]);
                assert(fn_state(*codegen) =~= funcs_map(next));
                assert forall|k: int|
                    0 <= k < fi + 1 implies (#[trigger] codegen.module.functions@[k]).name@
                    == program.functions@[k].id.id@ by {
                    if k < fi {
                        assert(codegen.module.functions@.subrange(0, fi as int)[k]
                            == codegen.module.functions@[k]);
                    }
                }
                assert forall|a: int, b: int|
                    0 <= a < b < fi + 1 implies (#[trigger] codegen.module.functions@[a]).name@
                    != (#[trigger] codegen.module.functions@[b]).name@ by {
                    if b == fi as int {
                        assert(!pre.function_table.spec_contains(
                            program.functions@[fi as int].id.id@,
                        ));
                        assert(pre.function_table.spec_get(program.functions@[a].id.id@)
                            is Some);
                    } else {
                        assert(codegen.module.functions@.subrange(0, fi as int)[a]
                            == codegen.module.functions@[a]);
                        assert(codegen.module.functions@.subrange(0, fi as int)[b]
                            == codegen.module.functions@[b]);
                    }
                }
            }
            fi = fi + 1;
        }
        proof {
            assert(program.functions@.take(program.functions@.len() as int)
                =~= program.functions@);
        }
        // Now emit each function's parameters and statements.
        let mut fj: usize = 0;
        while fj < program.functions.len()
            invariant
                0 <= fj <= program.functions@.len(),
                codegen.wf(),
                codegen.module.functions@.len() == program.functions@.len(),
                struct_state(*codegen) =~= sm,
                fn_state(*codegen) =~= fm,
                forall|k: int|
                    0 <= k < program.functions@.len() ==> (
                    #[trigger] codegen.module.functions@[k]).name@
                        == program.functions@[k].id.id@,
                forall|a: int, b: int|
                    0 <= a < b < program.functions@.len() ==> (
                    #[trigger] codegen.module.functions@[a]).name@ != (
                    #[trigger] codegen.module.functions@[b]).name@,
                forall|k: int|
                    0 <= k < program.functions@.len() ==> (
                    #[trigger] codegen.block_table.spec_get(
                        program.functions@[k].id.id@,
                    )) == Some((k as usize, 0usize)),
                forall|k: int|
                    0 <= k < fj && (#[trigger] program.functions@[k]).ret_ty is None
                        ==> exists|b: int|
                        0 <= b < codegen.module.functions@[k].blocks@.len()
                            && crate::backend::block_terminated(
                            #[trigger] codegen.module.functions@[k].blocks@[b],
                        ),
                forall|k: int|
                    0 <= k < fj ==> names_distinct(
                        par_names((#[trigger] program.functions@[k]).pars@),
                    ),
                forall|k: int|
                    0 <= k < fj ==> stmts_emit_ok(
                        (#[trigger] program.functions@[k]).statements@,
                        pars_sym(program.functions@[k].pars@),
                        fm,
                        sm,
                    ),
            decreases program.functions@.len() - fj,
        {
            let function = &program.functions[fj];
            codegen.symbol_table.clear();
            let _ = codegen.clear_expr_table();
            proof {
                assert(sym_state(*codegen) =~= pars_sym(function.pars@.take(0))) by {
                    assert(function.pars@.take(0) =~= Seq::<Identifier>::empty());
                }
            }
            match visitor.set_block_position_to_function(function, codegen) {
                Ok(()) => {},
                Err(e) => {
                    proof {
                        assert(false);
                    }
                    return Err(e);
                },
            }
            proof {
                assert(codegen.cur_func == fj);
            }
            let mut pi: usize = 0;
            while pi < function.pars.len()
                invariant
                    0 <= pi <= function.pars@.len(),
                    codegen.pos_wf(),
                    codegen.wf(),
                    struct_state(*codegen) =~= sm,
                    fn_state(*codegen) =~= fm,
                    sym_state(*codegen) =~= pars_sym(function.pars@.take(pi as int)),
                    names_distinct(par_names(function.pars@.take(pi as int))),
                    codegen.expr_stack@.len() == 0,
                    codegen.module.functions@.len() == program.functions@.len(),
                    forall|k: int|
                        0 <= k < program.functions@.len() ==> (
                        #[trigger] codegen.module.functions@[k]).name@
                            == program.functions@[k].id.id@,
                    forall|a: int, b: int|
                        0 <= a < b < program.functions@.len() ==> (
                        #[trigger] codegen.module.functions@[a]).name@ != (
                        #[trigger] codegen.module.functions@[b]).name@,
                    forall|k: int|
                        0 <= k < program.functions@.len() ==> (
                        #[trigger] codegen.block_table.spec_get(
                            program.functions@[k].id.id@,
                        )) == Some((k as usize, 0usize)),
                    codegen.cur_func == fj,
                    forall|k: int|
                        0 <= k < fj && (#[trigger] program.functions@[k]).ret_ty is None
                            ==> exists|b: int|
                            0 <= b < codegen.module.functions@[k].blocks@.len()
                                && crate::backend::block_terminated(
                                #[trigger] codegen.module.functions@[k].blocks@[b],
                            ),
                decreases function.pars@.len() - pi,
            {
                let ghost prefix = function.pars@.take(pi as int);
                let rp = visitor.visit_param(function, &function.pars[pi], codegen);
                match rp {
                    Ok(()) => {},
                    Err(e) => {
                        proof {
                            let nm = function.pars@[pi as int].id@;
                            lemma_pars_sym_dom(prefix, nm);
                            let w = choose|j: int|
                                0 <= j < prefix.len() && (#[trigger] prefix[j]).id@ == nm;
                            assert(par_names(function.pars@)[w] == nm);
                            assert(par_names(function.pars@)[pi as int] == nm);
                            assert(!names_distinct(par_names(function.pars@)));
                            assert(program.functions@[fj as int] == *function);
                            assert(!codegen_ok(*program));
                        }
                        return Err(e);
                    },
                }
                proof {
                    let next = function.pars@.take(pi + 1 as int);
                    assert(next.drop_last() =~= prefix);
                    assert(next.last() == function.pars@[pi as int]);
                    assert(sym_state(*codegen) =~= pars_sym(next));
                    let nm = function.pars@[pi as int].id@;
                    lemma_pars_sym_dom(prefix, nm);
                    assert forall|a: int, b: int|
                        0 <= a < b < next.len() implies par_names(next)[a]
                        != par_names(next)[b] by {
                        if b == pi as int {
                            assert(par_names(prefix)[a] == next[a].id@);
                        } else {
                            assert(par_names(prefix)[a] == next[a].id@);
                            assert(par_names(prefix)[b] == next[b].id@);
                        }
                    }
                }
                pi = pi + 1;
            }
            proof {
                assert(function.pars@.take(function.pars@.len() as int) =~= function.pars@);
                assert(function.statements@.skip(0) =~= function.statements@);
            }
            let mut sti: usize = 0;
            while sti < function.statements.len()
                invariant
                    0 <= sti <= function.statements@.len(),
                    codegen.pos_wf(),
                    codegen.cur_func < codegen.module.functions@.len(),
                    codegen.wf(),
                    codegen.expr_stack@.len() == 0 || sti == 0,
                    struct_state(*codegen) =~= sm,
                    fn_state(*codegen) =~= fm,
                    stmts_emit_ok(function.statements@, pars_sym(function.pars@), fm, sm)
                        <==> stmts_emit_ok(
                        function.statements@.skip(sti as int),
                        sym_state(*codegen),
                        fm,
                        sm,
                    ),
                    codegen.module.functions@.len() == program.functions@.len(),
                    forall|k: int|
                        0 <= k < program.functions@.len() ==> (
                        #[trigger] codegen.module.functions@[k]).name@
                            == program.functions@[k].id.id@,
                    forall|a: int, b: int|
                        0 <= a < b < program.functions@.len() ==> (
                        #[trigger] codegen.module.functions@[a]).name@ != (
                        #[trigger] codegen.module.functions@[b]).name@,
                    forall|k: int|
                        0 <= k < program.functions@.len() ==> (
                        #[trigger] codegen.block_table.spec_get(
                            program.functions@[k].id.id@,
                        )) == Some((k as usize, 0usize)),
                    codegen.cur_func == fj,
                    forall|k: int|
                        0 <= k < fj && (#[trigger] program.functions@[k]).ret_ty is None
                            ==> exists|b: int|
                            0 <= b < codegen.module.functions@[k].blocks@.len()
                                && crate::backend::block_terminated(
                                #[trigger] codegen.module.functions@[k].blocks@[b],
                            ),
                decreases function.statements@.len() - sti,
            {
                let ghost rest = function.statements@.skip(sti as int);
                proof {
                    assert(rest[0] == function.statements@[sti as int]);
                    assert(rest.skip(1) =~= function.statements@.skip(sti + 1 as int));
                }
                let ghost mpre = *codegen;
                let rs = visitor.visit_statement(function, &function.statements[sti], codegen);
                proof {
                    assert forall|k: int|
                        0 <= k < program.functions@.len() implies (
                    #[trigger] codegen.module.functions@[k]).name@
                        == program.functions@[k].id.id@ by {
                        if k != mpre.cur_func as int {
                            assert(codegen.module.functions@[k] == mpre.module.functions@[k]);
                        }
                    }
                    assert forall|k: int|
                        0 <= k < fj && (#[trigger] program.functions@[k]).ret_ty
                            is None implies exists|b: int|
                        0 <= b < codegen.module.functions@[k].blocks@.len()
                            && crate::backend::block_terminated(
                            #[trigger] codegen.module.functions@[k].blocks@[b],
                        ) by {
                        let b0 = choose|b: int|
                            0 <= b < mpre.module.functions@[k].blocks@.len()
                                && crate::backend::block_terminated(
                                #[trigger] mpre.module.functions@[k].blocks@[b],
                            );
                        assert(codegen.module.functions@[k] == mpre.module.functions@[k]);
                        assert(crate::backend::block_terminated(
                            codegen.module.functions@[k].blocks@[b0],
                        ));
                    }
                    assert forall|a: int, b: int|
                        0 <= a < b < program.functions@.len() implies (
                    #[trigger] codegen.module.functions@[a]).name@ != (
                    #[trigger] codegen.module.functions@[b]).name@ by {
                        assert(mpre.module.functions@[a].name@
                            != mpre.module.functions@[b].name@);
                        if a != mpre.cur_func as int {
                            assert(codegen.module.functions@[a] == mpre.module.functions@[a]);
                        }
                        if b != mpre.cur_func as int {
                            assert(codegen.module.functions@[b] == mpre.module.functions@[b]);
                        }
                    }
                }
                match rs {
                    Ok(()) => {},
                    Err(e) => {
                        proof {
                            assert(!stmts_emit_ok(
                                function.statements@,
                                pars_sym(function.pars@),
                                fm,
                                sm,
                            ));
                            assert(program.functions@[fj as int] == *function);
                            assert(!codegen_ok(*program));
                        }
                        return Err(e);
                    },
                }
                sti = sti + 1;
            }
            proof {
                assert(function.statements@.skip(function.statements@.len() as int) =~= Seq::<
                    Statement,
                >::empty());
                assert(stmts_emit_ok(function.statements@, pars_sym(function.pars@), fm, sm));
            }
            let ghost mfin = *codegen;
            visitor.synthesize_void_return(function, codegen);
            proof {
                assert forall|k: int|
                    0 <= k < program.functions@.len() implies (
                #[trigger] codegen.module.functions@[k]).name@ == program.functions@[k].id.id@ by {
                    if k != mfin.cur_func as int {
                        assert(codegen.module.functions@[k] == mfin.module.functions@[k]);
                    }
                }
                assert forall|k: int|
                    0 <= k < fj + 1 && (#[trigger] program.functions@[k]).ret_ty
                        is None implies exists|b: int|
                    0 <= b < codegen.module.functions@[k].blocks@.len()
                        && crate::backend::block_terminated(
                        #[trigger] codegen.module.functions@[k].blocks@[b],
                    ) by {
                    if k == fj as int {
                        assert(codegen.cur_func == fj);
                        assert(crate::backend::block_terminated(
                            codegen.module.functions@[k].blocks@[codegen.cur_block as int],
                        ));
                    } else {
                        let b0 = choose|b: int|
                            0 <= b < mfin.module.functions@[k].blocks@.len()
                                && crate::backend::block_terminated(
                                #[trigger] mfin.module.functions@[k].blocks@[b],
                            );
                        assert(codegen.module.functions@[k] == mfin.module.functions@[k]);
                        assert(crate::backend::block_terminated(
                            codegen.module.functions@[k].blocks@[b0],
                        ));
                    }
                }
                assert forall|a: int, b: int|
                    0 <= a < b < program.functions@.len() implies (
                #[trigger] codegen.module.functions@[a]).name@ != (
                #[trigger] codegen.module.functions@[b]).name@ by {
                    assert(mfin.module.functions@[a].name@ != mfin.module.functions@[b].name@);
                    if a != mfin.cur_func as int {
                        assert(codegen.module.functions@[a] == mfin.module.functions@[a]);
                    }
                    if b != mfin.cur_func as int {
                        assert(codegen.module.functions@[b] == mfin.module.functions@[b]);
                    }
                }
            }
            fj = fj + 1;
        }
        proof {
            assert(program.structs@.take(program.structs@.len() as int) =~= program.structs@);
            assert(names_distinct(struct_names(program.structs@)));
            assert forall|a: int, b: int|
                0 <= a < b < program.functions@.len() implies function_names(
                program.functions@,
            )[a] != function_names(program.functions@)[b] by {
                assert(codegen.module.functions@[a].name@ == program.functions@[a].id.id@);
                assert(codegen.module.functions@[b].name@ == program.functions@[b].id.id@);
            }
            assert(names_distinct(function_names(program.functions@)));
            assert(codegen_ok(*program));
        }
        Ok(())
    }
}

} // verus!
