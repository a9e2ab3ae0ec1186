use vstd::prelude::*;
use crate::ast::DataType;
use crate::error::{CompileError, ErrorKind};

verus! {

/// A plain set of names, used by the semantic passes and by function
/// construction to track which symbols are bound.
#[derive(Debug, Clone)]
pub struct SymbolTable {
    symbols: Vec<String>,
}

impl View for SymbolTable {
    type V = Set<Seq<char>>;

    closed spec fn view(&self) -> Set<Seq<char>> {
        Set::new(
            |n: Seq<char>|
                exists|i: int| 0 <= i < self.symbols@.len() && self.symbols@[i]@ == n,
        )
    }
}

impl SymbolTable {
    pub fn new() -> (r: SymbolTable)
        ensures
            r@ == Set::<Seq<char>>::empty(),
    {
        let r = SymbolTable { symbols: Vec::new() };
        proof {
            assert(r@ =~= Set::<Seq<char>>::empty());
        }
        r
    }

    /// Whether the name is in the table.
    pub fn lookup_symbol(&self, sym: &String) -> (r: bool)
        ensures
            r == self@.contains(sym@),
    {
        let mut i: usize = 0;
        while i < self.symbols.len()
            invariant
                0 <= i <= self.symbols@.len(),
                forall|j: int| 0 <= j < i ==> self.symbols@[j]@ != sym@,
            decreases self.symbols@.len() - i,
        {
            if self.symbols[i] == *sym {
                return true;
            }
            i = i + 1;
        }
        false
    }

    /// Add a name; a name may be added at most once.
    pub fn insert(&mut self, sym: &String) -> (r: Result<(), CompileError>)
        ensures
            match r {
                Ok(()) => !old(self)@.contains(sym@) && final(self)@ == old(self)@.insert(sym@),
                Err(e) => old(self)@.contains(sym@) && final(self)@ == old(self)@ && (e.kind
                    matches ErrorKind::SymbolAlreadyDefined(n) && n@ == sym@),
            },
    {
        if self.lookup_symbol(sym) {
            Err(CompileError::new(ErrorKind::SymbolAlreadyDefined(sym.clone())))
        } else {
            let ghost old_view = self@;
            self.symbols.push(sym.clone());
            proof {
                assert forall|n: Seq<char>| self@.contains(n) implies old_view.insert(
                    sym@,
                ).contains(n) by {
                    let i = choose|i: int|
                        0 <= i < self.symbols@.len() && self.symbols@[i]@ == n;
                    if i < self.symbols@.len() - 1 {
                        assert(old_view.contains(n));
                    }
                }
                assert(self@.contains(sym@)) by {
                    assert(self.symbols@[self.symbols@.len() - 1]@ == sym@);
                }
                assert forall|n: Seq<char>| old_view.insert(sym@).contains(n) implies self@.contains(
                    n,
                ) by {
                    if n != sym@ {
                        let i = choose|i: int|
                            0 <= i < old(self).symbols@.len() && old(self).symbols@[i]@ == n;
                        assert(self.symbols@[i]@ == n);
                    }
                }
                assert(self@ =~= old_view.insert(sym@));
            }
            Ok(())
        }
    }
}

impl Default for SymbolTable {
    fn default() -> (r: SymbolTable)
        ensures
            r@ == Set::<Seq<char>>::empty(),
    {
        SymbolTable::new()
    }
}

/// The first value stored under the name, scanning the entries in
/// order.
pub open spec fn assoc_get<T>(entries: Seq<(String, T)>, name: Seq<char>) -> Option<T>
    decreases entries,
{
    if entries.len() <= 0 {
        None
    } else if entries[0].0@ == name {
        Some(entries[0].1)
    } else {
        assoc_get(entries.skip(1), name)
    }
}

proof fn lemma_assoc_get_push<T>(entries: Seq<(String, T)>, key: String, val: T, name: Seq<char>)
    ensures
        assoc_get(entries.push((key, val)), name) == (match assoc_get(entries, name) {
            Some(v) => Some(v),
            None => if key@ == name {
                Some(val)
            } else {
                None
            },
        }),
    decreases entries,
{
    let pushed = entries.push((key, val));
    if entries.len() == 0 {
        assert(pushed.len() == 1);
        assert(pushed[0] == (key, val));
        assert(pushed.skip(1) =~= Seq::<(String, T)>::empty());
        assert(assoc_get(pushed.skip(1), name) is None);
        assert(assoc_get(entries, name) is None);
        if pushed[0].0@ == name {
            assert(assoc_get(pushed, name) == Some(val));
        } else {
            assert(assoc_get(pushed, name) is None);
        }
    } else {
        lemma_assoc_get_push(entries.skip(1), key, val, name);
        assert(pushed.skip(1) =~= entries.skip(1).push((key, val)));
        assert(pushed[0] == entries[0]);
        if pushed[0].0@ == name {
            assert(assoc_get(pushed, name) == Some(entries[0].1));
            assert(assoc_get(entries, name) == Some(entries[0].1));
        } else {
            assert(assoc_get(pushed, name) == assoc_get(pushed.skip(1), name));
            assert(assoc_get(entries, name) == assoc_get(entries.skip(1), name));
        }
    }
}

proof fn lemma_assoc_get_index<T>(entries: Seq<(String, T)>, i: int)
    requires
        0 <= i < entries.len(),
    ensures
        assoc_get(entries, entries[i].0@) is Some,
    decreases entries,
{
    if i > 0 && entries[0].0@ != entries[i].0@ {
        lemma_assoc_get_index(entries.skip(1), i - 1);
        assert(entries.skip(1)[i - 1] == entries[i]);
    }
}

/// A table from names to values, used by the code generator for its
/// symbol, function, block, and struct tables.  A name may be bound at
/// most once.
#[derive(Debug)]
pub struct NameTable<T> {
    entries: Vec<(String, T)>,
}

impl<T> NameTable<T> {
    /// The value bound to the name, if any.
    pub closed spec fn spec_get(&self, name: Seq<char>) -> Option<T> {
        assoc_get(self.entries@, name)
    }

    pub open spec fn spec_contains(&self, name: Seq<char>) -> bool {
        self.spec_get(name) is Some
    }

    pub closed spec fn spec_len(&self) -> nat {
        self.entries@.len()
    }

    pub fn new() -> (r: Self)
        ensures
            forall|n: Seq<char>| r.spec_get(n) is None,
            r.spec_len() == 0,
    {
        NameTable { entries: Vec::new() }
    }

    pub fn lookup_symbol(&self, sym: &String) -> (r: bool)
        ensures
            r == self.spec_contains(sym@),
    {
        let mut i: usize = 0;
        while i < self.entries.len()
            invariant
                0 <= i <= self.entries@.len(),
                forall|j: int| 0 <= j < i ==> self.entries@[j].0@ != sym@,
            decreases self.entries@.len() - i,
        {
            if self.entries[i].0 == *sym {
                proof {
                    lemma_assoc_get_index(self.entries@, i as int);
                }
                return true;
            }
            i = i + 1;
        }
        proof {
            lemma_assoc_get_none(self.entries@, sym@);
        }
        false
    }

    /// Borrow the value bound to the name.
    pub fn get(&self, sym: &String) -> (r: Option<&T>)
        ensures
            match r {
                Some(v) => self.spec_get(sym@) == Some(*v),
                None => self.spec_get(sym@) is None,
            },
    {
        let mut i: usize = 0;
        while i < self.entries.len()
            invariant
                0 <= i <= self.entries@.len(),
                forall|j: int| 0 <= j < i ==> self.entries@[j].0@ != sym@,
            decreases self.entries@.len() - i,
        {
            if self.entries[i].0 == *sym {
                proof {
                    lemma_assoc_get_first(self.entries@, sym@, i as int);
                }
                return Some(&self.entries[i].1);
            }
            i = i + 1;
        }
        proof {
            lemma_assoc_get_none(self.entries@, sym@);
        }
        None
    }

    /// Bind a value to a fresh name; a bound name is refused.
    pub fn insert(&mut self, sym: &String, val: T) -> (r: Result<(), CompileError>)
        ensures
            match r {
                Ok(()) => !old(self).spec_contains(sym@) && final(self).spec_get(sym@) == Some(
                    val,
                ) && (forall|n: Seq<char>|
                    n != sym@ ==> final(self).spec_get(n) == old(self).spec_get(n))
                    && final(self).spec_len() == old(self).spec_len() + 1,
                Err(e) => old(self).spec_contains(sym@) && *final(self) == *old(self)
                    && (e.kind matches ErrorKind::SymbolAlreadyDefined(n) && n@ == sym@),
            },
    {
        if self.lookup_symbol(sym) {
            Err(CompileError::new(ErrorKind::SymbolAlreadyDefined(sym.clone())))
        } else {
            let ghost prev = self.entries@;
            self.entries.push((sym.clone(), val));
            proof {
                assert forall|n: Seq<char>| true implies #[trigger] self.spec_get(n) == (
                match assoc_get(prev, n) {
                    Some(v) => Some(v),
                    None => if sym@ == n {
                        Some(val)
                    } else {
                        None
                    },
                }) by {
                    lemma_assoc_get_push(prev, self.entries@.last().0, val, n);
                    assert(prev.push((self.entries@.last().0, val)) =~= self.entries@);
                }
            }
            Ok(())
        }
    }

    /// How many names are bound.
    pub fn len(&self) -> (r: usize)
        ensures
            r == self.spec_len(),
    {
        self.entries.len()
    }

    /// Drop every binding.
    pub fn clear(&mut self)
        ensures
            forall|n: Seq<char>| final(self).spec_get(n) is None,
            final(self).spec_len() == 0,
    {
        self.entries.clear();
    }
}

proof fn lemma_assoc_get_none<T>(entries: Seq<(String, T)>, name: Seq<char>)
    requires
        forall|j: int| 0 <= j < entries.len() ==> entries[j].0@ != name,
    ensures
        assoc_get(entries, name) is None,
    decreases entries,
{
    if entries.len() > 0 {
        lemma_assoc_get_none(entries.skip(1), name);
    }
}

proof fn lemma_assoc_get_first<T>(entries: Seq<(String, T)>, name: Seq<char>, i: int)
    requires
        0 <= i < entries.len(),
        entries[i].0@ == name,
        forall|j: int| 0 <= j < i ==> entries[j].0@ != name,
    ensures
        assoc_get(entries, name) == Some(entries[i].1),
    decreases entries,
{
    if i > 0 {
        lemma_assoc_get_first(entries.skip(1), name, i - 1);
        assert(entries.skip(1)[i - 1] == entries[i]);
    }
}

/// The argument types and the optional return type of a function,
/// as the codegen's function table records them.
#[derive(Debug, Clone)]
pub struct FunctionSignature {
    arguments_ty: Vec<DataType>,
    return_ty: Option<DataType>,
}

impl FunctionSignature {
    pub fn new(arguments_ty: Vec<DataType>, return_ty: Option<DataType>) -> (r: FunctionSignature)
        ensures
            r.spec_args_ty() == arguments_ty@,
            r.spec_ret_ty() == return_ty,
    {
        FunctionSignature { arguments_ty, return_ty }
    }

    pub closed spec fn spec_args_ty(&self) -> Seq<DataType> {
        self.arguments_ty@
    }

    pub closed spec fn spec_ret_ty(&self) -> Option<DataType> {
        self.return_ty
    }

    /// Get the types of the arguments.
    pub fn get_args_ty(&self) -> (r: &Vec<DataType>)
        ensures
            r@ == self.spec_args_ty(),
    {
        &self.arguments_ty
    }

    /// Get the return type of the function; `None` means void.
    pub fn get_ret_ty(&self) -> (r: &Option<DataType>)
        ensures
            *r == self.spec_ret_ty(),
    {
        &self.return_ty
    }
}

} // verus!
