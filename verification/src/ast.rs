use vstd::prelude::*;
use crate::error::{CompileError, ErrorKind};
use crate::symbol_table::{FunctionSignature, SymbolTable};

verus! {

/// A name as it appears in the source: the text, the source span, the
/// optional declared type, and the optional chained field access that
/// models `base.field1.field2`.  Equality of identifiers is equality of
/// the name text; span and type are metadata.
#[derive(Debug, PartialEq, Eq)]
pub struct Identifier {
    pub id: String,
    pub pos_l: usize,
    pub pos_r: usize,
    pub ty: Option<DataType>,
    pub field: Option<Box<Identifier>>,
}

/// The types of the source language: machine integers and user-defined
/// records referenced by name.
#[derive(Debug, PartialEq, Eq)]
pub enum DataType {
    Int,
    Struct(Box<Identifier>),
}

/// The mathematical view of a `DataType`: a record type is known by its name.
pub enum TyView {
    IntTy,
    StructTy(Seq<char>),
}

/// The mathematical view of an `Identifier`: the name, the span, the
/// declared type, and the names of the field-access chain in order.
pub struct IdView {
    pub name: Seq<char>,
    pub pos_l: int,
    pub pos_r: int,
    pub ty: Option<TyView>,
    pub chain: Seq<Seq<char>>,
}

/// The names along the field-access chain of an identifier, outermost
/// first: for `o.a.b` with base `o` this is `[a, b]`.
pub open spec fn chain_of(i: Identifier) -> Seq<Seq<char>>
    decreases i,
{
    match i.field {
        None => Seq::empty(),
        Some(f) => seq![f.id@] + chain_of(*f),
    }
}

impl View for DataType {
    type V = TyView;

    open spec fn view(&self) -> TyView {
        match *self {
            DataType::Int => TyView::IntTy,
            DataType::Struct(id) => TyView::StructTy(id.id@),
        }
    }
}

pub open spec fn ty_opt_view(t: Option<DataType>) -> Option<TyView> {
    match t {
        None => None,
        Some(ty) => Some(ty@),
    }
}

/// The views of a sequence of types.
pub open spec fn ty_views(s: Seq<DataType>) -> Seq<TyView> {
    s.map(|i: int, t: DataType| t@)
}

impl View for Identifier {
    type V = IdView;

    open spec fn view(&self) -> IdView {
        IdView {
            name: self.id@,
            pos_l: self.pos_l as int,
            pos_r: self.pos_r as int,
            ty: ty_opt_view(self.ty),
            chain: chain_of(*self),
        }
    }
}

impl Identifier {
    pub fn new(id: String, pos_l: usize, pos_r: usize, ty: Option<DataType>) -> (r: Self)
        ensures
            r == (Identifier { id, pos_l, pos_r, ty, field: None }),
    {
        Self { id, pos_l, pos_r, ty, field: None }
    }

    pub fn update_ty(self, ty: DataType) -> (r: Self)
        ensures
            r == (Identifier { ty: Some(ty), ..self }),
    {
        Self { ty: Some(ty), ..self }
    }

    pub fn get_name(&self) -> (r: &String)
        ensures
            r == &self.id,
    {
        &self.id
    }

    pub fn update_field_access(self, field: Option<Identifier>) -> (r: Self)
        ensures
            r.id == self.id && r.pos_l == self.pos_l && r.pos_r == self.pos_r && r.ty == self.ty,
            match field {
                Some(f) => r.field matches Some(b) && *b == f,
                None => r.field is None,
            },
    {
        match field {
            Some(f) => Self { field: Some(Box::new(f)), ..self },
            None => Self { field: None, ..self },
        }
    }

    pub fn is_field_access(&self) -> (r: bool)
        ensures
            r == (self.field is Some),
    {
        self.field.is_some()
    }

    pub fn get_field(&self) -> (r: &Option<Box<Identifier>>)
        ensures
            r == &self.field,
    {
        &self.field
    }
}

impl Clone for Identifier {
    fn clone(&self) -> (r: Self)
        ensures
            r@ == self@,
        decreases *self,
    {
        let field: Option<Box<Identifier>> = match &self.field {
            Some(b) => Some(Box::new((**b).clone())),
            None => None,
        };
        let ty: Option<DataType> = match &self.ty {
            Some(t) => Some(t.clone()),
            None => None,
        };
        Identifier { id: self.id.clone(), pos_l: self.pos_l, pos_r: self.pos_r, ty, field }
    }
}

impl Clone for DataType {
    fn clone(&self) -> (r: Self)
        ensures
            r@ == self@,
        decreases *self,
    {
        match self {
            DataType::Int => DataType::Int,
            DataType::Struct(id) => DataType::Struct(Box::new((**id).clone())),
        }
    }
}

/// A whole source program: the functions and the record declarations,
/// each in declaration order.
#[derive(Debug)]
pub struct Program {
    pub functions: Vec<Func>,
    pub structs: Vec<Struct>,
}

/// A top-level declaration, as the grammar yields them.
#[derive(Debug, Clone)]
pub enum Decl {
    Func(Func),
    Struct(Struct),
}

/// A record type: a name and its fields in declaration order.  Field
/// order is significant: it fixes the offset index of each field.
#[derive(Debug, PartialEq)]
pub struct Struct {
    pub name: Identifier,
    pub fields: Vec<Field>,
}

/// One field of a record: its name and its type.
#[derive(Debug, PartialEq)]
pub struct Field {
    pub name: Identifier,
    pub ty: DataType,
}

/// The mathematical view of a `Field`.
pub struct FieldView {
    pub name: Seq<char>,
    pub ty: TyView,
}

/// The mathematical view of a `Struct`.
pub struct StructView {
    pub name: Seq<char>,
    pub fields: Seq<FieldView>,
}

impl View for Field {
    type V = FieldView;

    open spec fn view(&self) -> FieldView {
        FieldView { name: self.name.id@, ty: self.ty@ }
    }
}

impl View for Struct {
    type V = StructView;

    open spec fn view(&self) -> StructView {
        StructView {
            name: self.name.id@,
            fields: self.fields@.map(|i: int, f: Field| f@),
        }
    }
}

impl Clone for Field {
    fn clone(&self) -> (r: Self)
        ensures
            r@ == self@,
    {
        Field { name: self.name.clone(), ty: self.ty.clone() }
    }
}

impl Clone for Struct {
    fn clone(&self) -> (r: Self)
        ensures
            r@ == self@,
    {
        let mut fields: Vec<Field> = Vec::new();
        let mut i: usize = 0;
        while i < self.fields.len()
            invariant
                0 <= i <= self.fields@.len(),
                fields@.len() == i,
                forall|j: int| 0 <= j < i ==> fields@[j]@ == self.fields@[j]@,
            decreases self.fields@.len() - i,
        {
            fields.push(self.fields[i].clone());
            i = i + 1;
        }
        let r = Struct { name: self.name.clone(), fields };
        proof {
            assert forall|j: int| 0 <= j < self.fields@.len() implies r@.fields[j]
                == self@.fields[j] by {
            }
            assert(r@.fields =~= self@.fields);
        }
        r
    }
}

impl Field {
    pub fn new(name: Identifier, ty: DataType) -> (r: Self)
        ensures
            r == (Field { name, ty }),
    {
        Self { name, ty }
    }

    pub fn get_name(&self) -> (r: &String)
        ensures
            r == &self.name.id,
    {
        self.name.get_name()
    }
}

impl Struct {
    pub fn new(name: Identifier, fields: Vec<Field>) -> (r: Result<Self, CompileError>)
        ensures
            r matches Ok(s) && s == (Struct { name, fields }),
    {
        Ok(Self { name, fields })
    }

    /// Given a field name, return the index of the field in the struct.
    pub fn get_id_by_field_name(&self, field: &String) -> (r: Result<usize, CompileError>)
        ensures
            match r {
                Ok(ix) => 0 <= ix < self.fields@.len() && self.fields@[ix as int].name.id@
                    == field@ && (forall|j: int|
                    0 <= j < ix ==> self.fields@[j].name.id@ != field@),
                Err(e) => (forall|j: int|
                    0 <= j < self.fields@.len() ==> self.fields@[j].name.id@ != field@) && (
                e.kind matches ErrorKind::FieldNotFound(s, f) && s@ == self.name.id@ && f@
                    == field@),
            },
    {
        let mut i: usize = 0;
        while i < self.fields.len()
            invariant
                0 <= i <= self.fields@.len(),
                forall|j: int| 0 <= j < i ==> self.fields@[j].name.id@ != field@,
            decreases self.fields@.len() - i,
        {
            if *self.fields[i].get_name() == *field {
                return Ok(i);
            }
            i = i + 1;
        }
        Err(CompileError::new(ErrorKind::FieldNotFound(self.name.id.clone(), field.clone())))
    }
}

/// The set of function names a sequence of functions declares.
pub open spec fn func_name_set(functions: Seq<Func>) -> Set<Seq<char>> {
    Set::new(
        |n: Seq<char>|
            exists|i: int| 0 <= i < functions.len() && functions[i].id.id@ == n,
    )
}

/// Whether no two functions in the sequence share a name.
pub open spec fn funcs_unique(functions: Seq<Func>) -> bool {
    forall|i: int, j: int|
        0 <= i < j < functions.len() ==> functions[i].id.id@ != functions[j].id.id@
}

impl Program {
    /// Collect the names of all functions; each may be declared only once.
    pub fn get_function_names(&self) -> (r: Result<SymbolTable, CompileError>)
        ensures
            match r {
                Ok(t) => funcs_unique(self.functions@) && t@ == func_name_set(self.functions@),
                Err(e) => !funcs_unique(self.functions@) && (e.kind matches
                    ErrorKind::SymbolAlreadyDefined(nm) && (exists|i: int, j: int|
                    0 <= i < j < self.functions@.len() && self.functions@[i].id.id@ == nm@
                        && self.functions@[j].id.id@ == nm@)),
            },
    {
        let mut set = SymbolTable::default();
        let mut i: usize = 0;
        while i < self.functions.len()
            invariant
                0 <= i <= self.functions@.len(),
                set@ == func_name_set(self.functions@.take(i as int)),
                funcs_unique(self.functions@.take(i as int)),
            decreases self.functions@.len() - i,
        {
            let ghost prefix = self.functions@.take(i as int);
            let name = self.functions[i].id.get_name();
            match set.insert(name) {
                Ok(()) => {},
                Err(e) => {
                    proof {
                        let w = choose|k: int| 0 <= k < prefix.len() && prefix[k].id.id@ == name@;
                        assert(self.functions@[w].id.id@ == name@);
                        assert(!funcs_unique(self.functions@));
                    }
                    return Err(e);
                },
            }
            proof {
                let next = self.functions@.take(i + 1 as int);
                assert forall|n: Seq<char>| set@.contains(n) implies func_name_set(next).contains(
                    n,
                ) by {
                    if n == name@ {
                        assert(next[i as int].id.id@ == n);
                    } else {
                        let k = choose|k: int| 0 <= k < prefix.len() && prefix[k].id.id@ == n;
                        assert(next[k].id.id@ == n);
                    }
                }
                assert forall|n: Seq<char>| func_name_set(next).contains(n) implies set@.contains(
                    n,
                ) by {
                    let k = choose|k: int| 0 <= k < next.len() && next[k].id.id@ == n;
                    if k < i as int {
                        assert(prefix[k].id.id@ == n);
                    }
                }
                assert(set@ =~= func_name_set(next));
                assert forall|a: int, b: int| 0 <= a < b < next.len() implies next[a].id.id@
                    != next[b].id.id@ by {
                    if b == i as int {
                        assert(prefix[a].id.id@ == next[a].id.id@);
                        assert(!func_name_set(prefix).contains(name@));
                    } else {
                        assert(prefix[a].id.id@ == next[a].id.id@);
                        assert(prefix[b].id.id@ == next[b].id.id@);
                    }
                }
            }
            i = i + 1;
        }
        proof {
            assert(self.functions@.take(self.functions@.len() as int) =~= self.functions@);
        }
        Ok(set)
    }
}

/// A function: its name, its parameters (each carrying a declared type),
/// its body, and its optional return type (`None` means void).
#[derive(Debug, Clone)]
pub struct Func {
    /// Name of the function.
    pub id: Identifier,
    /// Parameters of the function.
    pub pars: Vec<Identifier>,
    /// The statements of the function.
    pub statements: Vec<Statement>,
    /// Return type of the function; `None` when void.
    pub ret_ty: Option<DataType>,
}

/// The names bound after the statement.  The scope is flat: a
/// conditional's branch bodies bind into it in order, the else body
/// after the then body, just as the code generator's symbol table sees
/// them.
pub open spec fn stmt_bound_after(s: Statement, defined: Set<Seq<char>>) -> Set<Seq<char>>
    decreases s, 1int,
{
    match s {
        Statement::Definition(id, _) => defined.insert(id.id@),
        Statement::Conditional(_, t, els) => {
            let after_then = stmts_bound_after(t@, defined);
            match els {
                Some(v) => stmts_bound_after(v@, after_then),
                None => after_then,
            }
        },
        _ => defined,
    }
}

pub open spec fn stmts_bound_after(ss: Seq<Statement>, defined: Set<Seq<char>>) -> Set<Seq<char>>
    decreases ss, 0int,
{
    if ss.len() <= 0 {
        defined
    } else {
        stmts_bound_after(ss.skip(1), stmt_bound_after(ss[0], defined))
    }
}

/// The first breach of the binding discipline in the statement, at any
/// depth: `Some((true, n))` when a definition redefines `n`,
/// `Some((false, n))` when an assignment uses the unbound `n`, `None`
/// when every definition is fresh and every assignment is bound.
pub open spec fn stmt_binding_violation(s: Statement, defined: Set<Seq<char>>) -> Option<
    (bool, Seq<char>),
>
    decreases s, 1int,
{
    match s {
        Statement::Definition(id, _) => if defined.contains(id.id@) {
            Some((true, id.id@))
        } else {
            None
        },
        Statement::Assign(id, _) => if !defined.contains(id.id@) {
            Some((false, id.id@))
        } else {
            None
        },
        Statement::Conditional(_, t, els) => match stmts_binding_violation(t@, defined) {
            Some(v) => Some(v),
            None => match els {
                Some(e) => stmts_binding_violation(e@, stmts_bound_after(t@, defined)),
                None => None,
            },
        },
        _ => None,
    }
}

pub open spec fn stmts_binding_violation(
    ss: Seq<Statement>,
    defined: Set<Seq<char>>,
) -> Option<(bool, Seq<char>)>
    decreases ss, 0int,
{
    if ss.len() <= 0 {
        None
    } else {
        match stmt_binding_violation(ss[0], defined) {
            Some(v) => Some(v),
            None => stmts_binding_violation(ss.skip(1), stmt_bound_after(ss[0], defined)),
        }
    }
}

/// The binding discipline of a function body: every defined name is
/// fresh and every assigned name was defined before, at any depth.
pub open spec fn local_bindings_ok(stmts: Seq<Statement>) -> bool {
    stmts_binding_violation(stmts, Set::empty()) is None
}

/// Check one statement against the binding discipline, extending the
/// scope with the names it defines.
fn bind_statement(table: &mut SymbolTable, stmt: &Statement) -> (r: Result<(), CompileError>)
    ensures
        match r {
            Ok(()) => stmt_binding_violation(*stmt, old(table)@) is None && final(table)@
                == stmt_bound_after(*stmt, old(table)@),
            Err(e) => match stmt_binding_violation(*stmt, old(table)@) {
                Some(v) => if v.0 {
                    e.kind matches ErrorKind::SymbolAlreadyDefined(n) && n@ == v.1
                } else {
                    e.kind matches ErrorKind::SymbolNotDefined(n) && n@ == v.1
                },
                None => false,
            },
        },
    decreases *stmt,
{
    match stmt {
        Statement::Definition(id, _) => {
            match table.insert(id.get_name()) {
                Ok(()) => Ok(()),
                Err(e) => Err(e),
            }
        },
        Statement::Assign(id, _) => {
            if !table.lookup_symbol(id.get_name()) {
                Err(CompileError::new(ErrorKind::SymbolNotDefined(id.get_name().clone())))
            } else {
                Ok(())
            }
        },
        Statement::Conditional(_, then_body, else_body) => {
            match bind_statements(table, then_body) {
                Ok(()) => {},
                Err(e) => {
                    return Err(e);
                },
            }
            match else_body {
                Some(body) => bind_statements(table, body),
                None => Ok(()),
            }
        },
        _ => Ok(()),
    }
}

/// Check a statement list against the binding discipline, in order.
#[verifier::loop_isolation(false)]
fn bind_statements(table: &mut SymbolTable, stmts: &Vec<Statement>) -> (r: Result<
    (),
    CompileError,
>)
    ensures
        match r {
            Ok(()) => stmts_binding_violation(stmts@, old(table)@) is None && final(table)@
                == stmts_bound_after(stmts@, old(table)@),
            Err(e) => match stmts_binding_violation(stmts@, old(table)@) {
                Some(v) => if v.0 {
                    e.kind matches ErrorKind::SymbolAlreadyDefined(n) && n@ == v.1
                } else {
                    e.kind matches ErrorKind::SymbolNotDefined(n) && n@ == v.1
                },
                None => false,
            },
        },
    decreases *stmts,
{
    let mut i: usize = 0;
    proof {
        assert(stmts@.skip(0) =~= stmts@);
    }
    while i < stmts.len()
        invariant
            0 <= i <= stmts@.len(),
            stmts_binding_violation(stmts@, old(table)@) == stmts_binding_violation(
                stmts@.skip(i as int),
                table@,
            ),
            stmts_bound_after(stmts@, old(table)@) == stmts_bound_after(
                stmts@.skip(i as int),
                table@,
            ),
        decreases stmts@.len() - i,
    {
        let ghost rest = stmts@.skip(i as int);
        proof {
            assert(rest[0] == stmts@[i as int]);
            assert(rest.skip(1) =~= stmts@.skip(i + 1 as int));
            assert(decreases_to!(*stmts => stmts@[i as int]));
        }
        match bind_statement(table, &stmts[i]) {
            Ok(()) => {},
            Err(e) => {
                return Err(e);
            },
        }
        i = i + 1;
    }
    proof {
        assert(stmts@.skip(stmts@.len() as int) =~= Seq::<Statement>::empty());
    }
    Ok(())
}

impl Func {
    /// Build a function, checking the binding discipline of its body at
    /// every depth: a `Definition` must introduce a fresh name and an
    /// `Assign` must refer to a previously defined one.
    pub fn new(
        id: Identifier,
        pars: Vec<Identifier>,
        statements: Vec<Statement>,
        ret_ty: Option<DataType>,
    ) -> (r: Result<Self, CompileError>)
        ensures
            match r {
                Ok(f) => local_bindings_ok(statements@) && f == (Func {
                    id,
                    pars,
                    statements,
                    ret_ty,
                }),
                Err(e) => match stmts_binding_violation(statements@, Set::empty()) {
                    Some(v) => if v.0 {
                        e.kind matches ErrorKind::SymbolAlreadyDefined(n) && n@ == v.1
                    } else {
                        e.kind matches ErrorKind::SymbolNotDefined(n) && n@ == v.1
                    },
                    None => false,
                },
            },
    {
        let mut symbol_table = SymbolTable::default();
        match bind_statements(&mut symbol_table, &statements) {
            Ok(()) => Ok(Self { id, pars, statements, ret_ty }),
            Err(e) => Err(e),
        }
    }

    /// All parameters carry a declared type.
    pub open spec fn pars_typed(&self) -> bool {
        forall|i: int| 0 <= i < self.pars@.len() ==> self.pars@[i].ty is Some
    }

    /// The argument types a function's signature carries, as views.
    pub open spec fn spec_arg_views(&self) -> Seq<TyView> {
        self.pars@.map(|i: int, p: Identifier| p.ty.unwrap()@)
    }

    pub fn get_signature(&self) -> (r: FunctionSignature)
        requires
            self.pars_typed(),
        ensures
            ty_views(r.spec_args_ty()) == self.spec_arg_views(),
            ty_opt_view(r.spec_ret_ty()) == ty_opt_view(self.ret_ty),
    {
        let mut arguments_ty: Vec<DataType> = Vec::new();
        let mut i: usize = 0;
        while i < self.pars.len()
            invariant
                0 <= i <= self.pars@.len(),
                self.pars_typed(),
                arguments_ty@.len() == i,
                forall|j: int| 0 <= j < i ==> arguments_ty@[j]@ == self.pars@[j].ty.unwrap()@,
            decreases self.pars@.len() - i,
        {
            match &self.pars[i].ty {
                Some(t) => {
                    arguments_ty.push(t.clone());
                },
                None => {
                    proof {
                        assert(false);
                    }
                },
            }
            i = i + 1;
        }
        let ret_ty = match &self.ret_ty {
            Some(t) => Some(t.clone()),
            None => None,
        };
        let r = FunctionSignature::new(arguments_ty, ret_ty);
        proof {
            assert forall|j: int| 0 <= j < self.pars@.len() implies ty_views(r.spec_args_ty())[j]
                == self.spec_arg_views()[j] by {
            }
            assert(ty_views(r.spec_args_ty()) =~= self.spec_arg_views());
        }
        r
    }
}

/// A statement of the source language.
#[derive(Debug)]
pub enum Statement {
    /// `return;`
    RetVoid,
    /// `return e;`
    Ret(Expr),
    /// `let x = e;` — introduces a fresh local.
    Definition(Identifier, Expr),
    /// `x = e;` or `x.f = e;` — updates an existing local or a field of one.
    Assign(Identifier, Expr),
    /// `if c { ... }` with an optional `else { ... }`.
    Conditional(Expr, Vec<Statement>, Option<Vec<Statement>>),
}

impl Statement {
    /// The expression a statement evaluates, when it has one: the
    /// returned value, the defined or assigned value, or the condition.
    pub fn get_inner(&self) -> (r: Option<&Expr>)
        ensures
            match *self {
                Statement::Ret(_) => r is Some,
                Statement::Definition(_, _) => r is Some,
                Statement::Assign(_, _) => r is Some,
                Statement::Conditional(_, _, _) => r is Some,
                Statement::RetVoid => r is None,
            },
            match *self {
                Statement::Ret(e) => r == Some(&e),
                Statement::Definition(_, e) => r == Some(&e),
                Statement::Assign(_, e) => r == Some(&e),
                Statement::Conditional(c, _, _) => r == Some(&c),
                Statement::RetVoid => true,
            },
    {
        match self {
            Statement::Ret(expr) => Some(expr),
            Statement::Definition(_, expr) => Some(expr),
            Statement::Assign(_, expr) => Some(expr),
            Statement::Conditional(cond, _, _) => Some(cond),
            Statement::RetVoid => None,
        }
    }
}

/// An expression of the source language.
#[derive(Debug)]
pub enum Expr {
    /// An integer literal.
    Num(i64),
    /// A reference to a name, possibly a field-access chain.
    Id(Identifier),
    /// A fresh record value: `new t`.
    Struct(Identifier),
    /// A binary operator applied to two terms.
    Binary(Opcode, Box<Term>, Box<Term>),
    /// A single term.
    Term(Box<Term>),
    /// A call: callee and argument expressions in order.
    Call(Identifier, Vec<Expr>),
}

/// The operator alphabet.  `Not`, `Head` and `Tail` remain in the
/// alphabet but are not lowered or emitted.
#[derive(Debug, Clone, Copy, PartialEq, Eq)]
pub enum Opcode {
    Mul,
    Div,
    Add,
    Sub,
    Not,
    Head,
    Tail,
    Or,
    Geq,
    Cmp,
}

/// An atomic operand.
#[derive(Debug)]
pub enum Term {
    /// A 64-bit signed integer literal.
    Num(i64),
    /// A reference to a name, possibly a field-access chain.
    Id(Identifier),
    /// A member access pair `(object, field)`, for backend use.
    Object(Identifier, Identifier),
}

impl Clone for Term {
    fn clone(&self) -> (r: Self) {
        match self {
            Term::Num(n) => Term::Num(*n),
            Term::Id(id) => Term::Id(id.clone()),
            Term::Object(o, f) => Term::Object(o.clone(), f.clone()),
        }
    }
}

fn clone_exprs(v: &Vec<Expr>) -> (r: Vec<Expr>)
    decreases *v,
{
    let mut r: Vec<Expr> = Vec::new();
    let mut i: usize = 0;
    while i < v.len()
        invariant
            0 <= i <= v@.len(),
        decreases v@.len() - i,
    {
        r.push(v[i].clone());
        i = i + 1;
    }
    r
}

impl Clone for Expr {
    fn clone(&self) -> (r: Self)
        decreases *self,
    {
        match self {
            Expr::Num(n) => Expr::Num(*n),
            Expr::Id(id) => Expr::Id(id.clone()),
            Expr::Struct(id) => Expr::Struct(id.clone()),
            Expr::Binary(op, a, b) => Expr::Binary(
                *op,
                Box::new((**a).clone()),
                Box::new((**b).clone()),
            ),
            Expr::Term(t) => Expr::Term(Box::new((**t).clone())),
            Expr::Call(id, args) => Expr::Call(id.clone(), clone_exprs(args)),
        }
    }
}

fn clone_statements(v: &Vec<Statement>) -> (r: Vec<Statement>)
    decreases *v,
{
    let mut r: Vec<Statement> = Vec::new();
    let mut i: usize = 0;
    while i < v.len()
        invariant
            0 <= i <= v@.len(),
        decreases v@.len() - i,
    {
        r.push(v[i].clone());
        i = i + 1;
    }
    r
}

impl Clone for Statement {
    fn clone(&self) -> (r: Self)
        decreases *self,
    {
        match self {
            Statement::RetVoid => Statement::RetVoid,
            Statement::Ret(e) => Statement::Ret(e.clone()),
            Statement::Definition(id, e) => Statement::Definition(id.clone(), e.clone()),
            Statement::Assign(id, e) => Statement::Assign(id.clone(), e.clone()),
            Statement::Conditional(c, t, e) => {
                let els: Option<Vec<Statement>> = match e {
                    Some(stmts) => Some(clone_statements(stmts)),
                    None => None,
                };
                Statement::Conditional(c.clone(), clone_statements(t), els)
            },
        }
    }
}

} // verus!
