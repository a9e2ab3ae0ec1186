use vstd::prelude::*;

verus! {

/// A type in the emitted module.  The source `int` maps to a 32-bit
/// machine integer; a record type is referred to by name.
#[derive(Debug, Clone, PartialEq, Eq)]
pub enum EType {
    IntTy,
    StructTy(String),
}

/// A value operand: an integer constant, the n-th parameter of the
/// enclosing function, or the result of a numbered instruction.
#[derive(Debug, Clone, Copy, PartialEq, Eq)]
pub enum EValue {
    ConstInt(i64),
    Param(usize),
    Reg(usize),
}

/// The binary arithmetic operators the backend knows.
#[derive(Debug, Clone, Copy, PartialEq, Eq)]
pub enum EOp {
    Add,
    Sub,
    Mul,
    Div,
    Or,
}

/// The comparison predicates the backend knows.
#[derive(Debug, Clone, Copy, PartialEq, Eq)]
pub enum EPred {
    Eq,
    Sge,
}

/// One instruction of the emitted module.  Branch targets are indices
/// into the enclosing function's block list.
#[derive(Debug, Clone, PartialEq)]
pub enum EInstr {
    Alloca { dst: usize, ty: EType },
    Store { val: EValue, ptr: EValue },
    Load { dst: usize, ptr: EValue },
    BinOp { dst: usize, op: EOp, a: EValue, b: EValue },
    ICmp { dst: usize, pred: EPred, a: EValue, b: EValue },
    GetElementPtr { dst: usize, ty: EType, base: EValue, field: usize },
    Call { dst: Option<usize>, callee: String, args: Vec<EValue> },
    Br { dest: usize },
    CondBr { cond: EValue, then_dest: usize, else_dest: usize },
    Ret { val: EValue },
    RetVoid,
}

/// A basic block of the emitted module.
#[derive(Debug, Clone, PartialEq)]
pub struct EBlock {
    pub label: String,
    pub instrs: Vec<EInstr>,
}

/// A function of the emitted module: name, parameter types, optional
/// return type (`None` is void), and its blocks; the first block is the
/// entry.
#[derive(Debug, Clone, PartialEq)]
pub struct EFunction {
    pub name: String,
    pub params: Vec<EType>,
    pub ret: Option<EType>,
    pub blocks: Vec<EBlock>,
}

/// A record type of the emitted module.
#[derive(Debug, Clone, PartialEq)]
pub struct EStruct {
    pub name: String,
    pub fields: Vec<EType>,
}

/// The emitted module: the unit the backend writes out as bitcode.
#[derive(Debug, Clone, PartialEq)]
pub struct EModule {
    pub name: String,
    pub target: String,
    pub structs: Vec<EStruct>,
    pub functions: Vec<EFunction>,
}

impl EModule {
    /// An empty module with the given name and the fixed target triple.
    pub fn new(name: String) -> (r: EModule)
        ensures
            r.name == name,
            r.target@ == "x86_64-unknown-linux-gnu"@,
            r.structs@.len() == 0,
            r.functions@.len() == 0,
    {
        EModule {
            name,
            target: String::from_str("x86_64-unknown-linux-gnu"),
            structs: Vec::new(),
            functions: Vec::new(),
        }
    }
}

/// Whether an instruction ends a basic block.
pub open spec fn is_terminator(i: EInstr) -> bool {
    match i {
        EInstr::Br { .. } => true,
        EInstr::CondBr { .. } => true,
        EInstr::Ret { .. } => true,
        EInstr::RetVoid => true,
        _ => false,
    }
}

/// Whether an instruction is a return terminator.
pub open spec fn is_ret(i: EInstr) -> bool {
    match i {
        EInstr::Ret { .. } => true,
        EInstr::RetVoid => true,
        _ => false,
    }
}

/// How many return terminators a sequence of instructions holds.
pub open spec fn ret_count(s: Seq<EInstr>) -> int
    decreases s,
{
    if s.len() <= 0 {
        0
    } else {
        ret_count(s.drop_last()) + (if is_ret(s.last()) {
            1int
        } else {
            0int
        })
    }
}

/// No instruction in the sequence ends a block.
pub open spec fn no_terminators(s: Seq<EInstr>) -> bool {
    forall|j: int| 0 <= j < s.len() ==> !is_terminator(#[trigger] s[j])
}

/// The block ends in a terminator.
pub open spec fn block_terminated(b: EBlock) -> bool {
    b.instrs@.len() > 0 && is_terminator(b.instrs@.last())
}

/// A call instruction refers to a declared function of the module and
/// passes exactly as many arguments as that function has parameters.
pub open spec fn call_ok(m: EModule, i: EInstr) -> bool {
    match i {
        EInstr::Call { callee, args, .. } => exists|k: int|
            0 <= k < m.functions@.len() && (#[trigger] m.functions@[k]).name@ == callee@
                && args@.len() == m.functions@[k].params@.len(),
        _ => true,
    }
}

/// Every call site in the module refers to a declared function with
/// matching argument arity.
pub open spec fn module_calls_wf(m: EModule) -> bool {
    forall|f: int, b: int, j: int|
        0 <= f < m.functions@.len() && 0 <= b < m.functions@[f].blocks@.len() && 0 <= j
            < m.functions@[f].blocks@[b].instrs@.len() ==> call_ok(
            m,
            #[trigger] m.functions@[f].blocks@[b].instrs@[j],
        )
}

/// Appending instructions leaves the return count of the prefix intact.
pub proof fn lemma_ret_count_append(a: Seq<EInstr>, b: Seq<EInstr>)
    ensures
        ret_count(a + b) == ret_count(a) + ret_count(b),
    decreases b,
{
    if b.len() == 0 {
        assert(a + b =~= a);
    } else {
        lemma_ret_count_append(a, b.drop_last());
        assert((a + b).drop_last() =~= a + b.drop_last());
        assert((a + b).last() == b.last());
    }
}

/// A sequence without returns counts zero.
pub proof fn lemma_ret_count_no_rets(s: Seq<EInstr>)
    requires
        forall|j: int| 0 <= j < s.len() ==> !is_ret(#[trigger] s[j]),
    ensures
        ret_count(s) == 0,
    decreases s,
{
    if s.len() > 0 {
        lemma_ret_count_no_rets(s.drop_last());
    }
}

} // verus!
