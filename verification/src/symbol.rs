use vstd::prelude::*;

verus! {

/// The base of a declared type.
#[derive(Debug, Clone, Copy, PartialEq, Eq, Structural)]
pub enum TypeBase {
    Int,
    Double,
    Char,
    Struct,
    Void,
}

/// What a symbol names.
#[derive(Debug, Clone, Copy, PartialEq, Eq, Structural)]
pub enum SymbolKind {
    Var,
    Fn,
    ExtFn,
    Struct,
    Param,
}

/// Where a symbol's storage lives.
#[derive(Debug, Clone, Copy, PartialEq, Eq, Structural)]
pub enum MemClass {
    Global,
    Arg,
    Local,
    /// For symbols where a memory class does not apply (structs, functions).
    NotApplicable,
}

/// A type: its base, the struct it names when the base is `Struct`, and its
/// array shape (`< 0` not an array, `0` an array whose size is not given as an
/// integer constant, `> 0` an array of that many elements).
#[derive(Debug)]
pub struct Type {
    pub tb: TypeBase,
    pub struct_name: Option<String>,
    pub elements: i32,
}

impl Type {
    /// The empty type: `void`, no struct name, not an array.
    pub fn new() -> (t: Self)
        ensures
            t.tb == TypeBase::Void,
            t.struct_name.is_none(),
            t.elements == -1,
    {
        Self { tb: TypeBase::Void, struct_name: None, elements: -1 }
    }
}

/// An entry of the symbol table.
#[derive(Debug)]
pub struct Symbol {
    pub name: String,
    pub kind: SymbolKind,
    pub mem: MemClass,
    pub type_info: Type,
    /// `0` for globals, `1` inside a function, `2` and more in nested blocks.
    pub depth: i32,
    /// The parameters of a function.
    pub args: Option<Vec<Symbol>>,
    /// The locals of a function.
    pub locals: Option<Vec<Symbol>>,
    /// The members of a struct.
    pub members: Option<Vec<Symbol>>,
}

impl Symbol {
    /// A symbol with the given name, kind and depth, no memory class, the
    /// empty type and no attached lists.
    pub fn new(name: String, kind: SymbolKind, depth: i32) -> (s: Self)
        ensures
            s.name == name,
            s.kind == kind,
            s.depth == depth,
            s.mem == MemClass::NotApplicable,
            s.type_info == Type::new_spec(),
            s.args.is_none(),
            s.locals.is_none(),
            s.members.is_none(),
    {
        Self {
            name,
            kind,
            mem: MemClass::NotApplicable,
            type_info: Type::new(),
            depth,
            args: None,
            locals: None,
            members: None,
        }
    }
}

impl Clone for Type {
    fn clone(&self) -> (r: Self)
        ensures
            r == *self,
    {
        let struct_name = match &self.struct_name {
            Some(n) => Some(n.clone()),
            None => None,
        };
        Type { tb: self.tb, struct_name, elements: self.elements }
    }
}

/// Whether `a` is a copy of `b`: the same fields, and lists that are
/// copies of `b`'s, symbol by symbol, at every depth.
pub open spec fn copied(a: Symbol, b: Symbol) -> bool
    decreases b, 0int,
{
    &&& a.name == b.name
    &&& a.kind == b.kind
    &&& a.mem == b.mem
    &&& a.type_info == b.type_info
    &&& a.depth == b.depth
    &&& copied_list(a.args, b.args)
    &&& copied_list(a.locals, b.locals)
    &&& copied_list(a.members, b.members)
}

/// Whether the list `a` is a copy of the list `b`.
pub open spec fn copied_list(a: Option<Vec<Symbol>>, b: Option<Vec<Symbol>>) -> bool
    decreases b, 0int,
{
    match b {
        None => a is None,
        Some(y) => match a {
            Some(x) => x@.len() == y@.len() && copied_prefix(x@, y@, y@.len() as int),
            None => false,
        },
    }
}

/// Whether the first `n` symbols of `x` are copies of those of `y`.
pub open spec fn copied_prefix(x: Seq<Symbol>, y: Seq<Symbol>, n: int) -> bool
    decreases y, n,
{
    if 0 < n <= y.len() && n <= x.len() {
        copied_prefix(x, y, n - 1) && copied(x[n - 1], y[n - 1])
    } else {
        n == 0
    }
}

/// Copies of each symbol, one by one, make a copy of the list.
proof fn lemma_copied_prefix(x: Seq<Symbol>, y: Seq<Symbol>, n: int)
    requires
        0 <= n <= x.len(),
        n <= y.len(),
        forall|j: int| 0 <= j < n ==> #[trigger] copied(x[j], y[j]),
    ensures
        copied_prefix(x, y, n),
    decreases n,
{
    if n > 0 {
        lemma_copied_prefix(x, y, n - 1);
        assert(copied(x[n - 1], y[n - 1]));
    }
}

/// A copy of `s` and of the lists it holds.
fn clone_symbol(s: &Symbol) -> (r: Symbol)
    ensures
        copied(r, *s),
    decreases s,
{
    Symbol {
        name: s.name.clone(),
        kind: s.kind,
        mem: s.mem,
        type_info: s.type_info.clone(),
        depth: s.depth,
        args: clone_list(&s.args),
        locals: clone_list(&s.locals),
        members: clone_list(&s.members),
    }
}

/// A copy of a symbol list, each symbol copied with its own lists.
fn clone_list(l: &Option<Vec<Symbol>>) -> (r: Option<Vec<Symbol>>)
    ensures
        copied_list(r, *l),
    decreases l,
{
    match l {
        None => None,
        Some(v) => {
            let mut out: Vec<Symbol> = Vec::new();
            let mut i: usize = 0;
            while i < v.len()
                invariant
                    *l == Some(*v),
                    i <= v@.len(),
                    out@.len() == i,
                    forall|j: int| 0 <= j < i ==> #[trigger] copied(out@[j], v@[j]),
                decreases v@.len() - i,
            {
                proof {
                    vstd::std_specs::vec::axiom_vec_index_decreases(*v, i as int);
                    assert(decreases_to!(*l => (*l)->0));
                    assert(decreases_to!(*l => v@[i as int]));
                }
                let c = clone_symbol(&v[i]);
                out.push(c);
                i += 1;
            }
            proof {
                lemma_copied_prefix(out@, v@, v@.len() as int);
            }
            Some(out)
        },
    }
}

impl Clone for Symbol {
    fn clone(&self) -> (r: Self)
        ensures
            copied(r, *self),
    {
        clone_symbol(self)
    }
}

impl Type {
    /// The value that `Type::new` returns.
    pub open spec fn new_spec() -> Type {
        Type { tb: TypeBase::Void, struct_name: None, elements: -1i32 }
    }
}

} // verus!
