use vstd::prelude::*;

verus! {

/// The kinds of faults the compiler can report.  Each variant carries the
/// names it complains about, so a caller can render a precise message.
#[derive(Debug, Clone)]
pub enum ErrorKind {
    /// A `Definition` introduced a name that is already in scope.
    SymbolAlreadyDefined(String),
    /// An `Assign` or a reference used a name that is not bound.
    SymbolNotDefined(String),
    /// A call names a function that the program does not declare.
    FunctionNotDefined(String),
    /// Two function declarations share a name.
    FunctionDefinedTwice(String),
    /// A field access names a field the struct does not have: (struct, field).
    FieldNotFound(String, String),
    /// A return statement disagrees with the declared return type.
    TypeMismatch(String, String),
    /// An internal invariant broke while building the control-flow graph.
    LoweringFailure,
    /// Expression-stack underflow, a missing table entry, and the like.
    CodegenFailure,
    /// The source text does not follow the grammar; carries the token position.
    SyntaxError(usize),
}

/// An error together with a chain of human-readable context notes,
/// innermost cause first.
#[derive(Debug, Clone)]
pub struct CompileError {
    pub kind: ErrorKind,
    pub context: Vec<String>,
}

impl CompileError {
    pub fn new(kind: ErrorKind) -> (r: CompileError)
        ensures
            r.kind == kind,
            r.context@.len() == 0,
    {
        CompileError { kind, context: Vec::new() }
    }

    /// Add one context note to the chain, outermost last.
    pub fn with_context(self, note: &str) -> (r: CompileError)
        ensures
            r.kind == self.kind,
            r.context@.len() == self.context@.len() + 1,
            r.context@.subrange(0, self.context@.len() as int) == self.context@,
            r.context@.last()@ == note@,
    {
        let mut context = self.context;
        context.push(note.to_owned());
        CompileError { kind: self.kind, context }
    }

    /// Render the message for the error kind alone, without the context chain.
    pub fn message(&self) -> (r: String)
        ensures
            r@ == spec_message(self.kind),
    {
        kind_message(&self.kind)
    }
}

/// What `message` returns for each kind of error.
pub open spec fn spec_message(kind: ErrorKind) -> Seq<char> {
    match kind {
        ErrorKind::SymbolAlreadyDefined(n) => "Symbol "@ + n@ + " is already defined"@,
        ErrorKind::SymbolNotDefined(n) => "Symbol "@ + n@ + " is not defined"@,
        ErrorKind::FunctionNotDefined(n) => "Function "@ + n@ + " is not defined"@,
        ErrorKind::FunctionDefinedTwice(n) => "Function "@ + n@ + " is already defined"@,
        ErrorKind::FieldNotFound(s, f) => "Field "@ + f@ + " was not found in struct "@ + s@,
        ErrorKind::TypeMismatch(expected, actual) => "Expected return type "@ + expected@
            + " but found "@ + actual@,
        ErrorKind::LoweringFailure => "Lowering failed"@,
        ErrorKind::CodegenFailure => "Codegen failed"@,
        ErrorKind::SyntaxError(_) => "Syntax error"@,
    }
}

fn kind_message(kind: &ErrorKind) -> (r: String)
    ensures
        r@ == spec_message(*kind),
{
    match kind {
        ErrorKind::SymbolAlreadyDefined(n) => String::from_str("Symbol ")
            .concat(n.as_str())
            .concat(" is already defined"),
        ErrorKind::SymbolNotDefined(n) => String::from_str("Symbol ")
            .concat(n.as_str())
            .concat(" is not defined"),
        ErrorKind::FunctionNotDefined(n) => String::from_str("Function ")
            .concat(n.as_str())
            .concat(" is not defined"),
        ErrorKind::FunctionDefinedTwice(n) => String::from_str("Function ")
            .concat(n.as_str())
            .concat(" is already defined"),
        ErrorKind::FieldNotFound(s, f) => String::from_str("Field ")
            .concat(f.as_str())
            .concat(" was not found in struct ")
            .concat(s.as_str()),
        ErrorKind::TypeMismatch(expected, actual) => String::from_str("Expected return type ")
            .concat(expected.as_str())
            .concat(" but found ")
            .concat(actual.as_str()),
        ErrorKind::LoweringFailure => String::from_str("Lowering failed"),
        ErrorKind::CodegenFailure => String::from_str("Codegen failed"),
        ErrorKind::SyntaxError(_) => String::from_str("Syntax error"),
    }
}

} // verus!
