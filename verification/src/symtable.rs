use vstd::prelude::*;
use crate::chars::string_push;
use crate::symbol::Symbol;

verus! {

/// The symbols in scope, in the order they were defined, with the depth of
/// the scope that is open.
pub struct SymTable {
    pub symbols: Vec<Symbol>,
    pub current_depth: i32,
    pub owner_idx: Option<usize>,
}

/// The index of the last symbol named `name` in `syms`, or `-1` if none is.
pub open spec fn last_index_of(syms: Seq<Symbol>, name: Seq<char>) -> int
    decreases syms.len(),
{
    if syms.len() == 0 {
        -1
    } else if syms.last().name@ == name {
        syms.len() - 1
    } else {
        last_index_of(syms.drop_last(), name)
    }
}

/// The symbol that a search for `name` finds: the last one defined with that
/// name, so that an inner scope hides an outer one.
pub open spec fn lookup(syms: Seq<Symbol>, name: Seq<char>) -> Option<Symbol> {
    let i = last_index_of(syms, name);
    if i >= 0 {
        Some(syms[i])
    } else {
        None
    }
}

/// Whether a symbol named `name` is defined at depth `depth`.
pub open spec fn defined_at(syms: Seq<Symbol>, name: Seq<char>, depth: i32) -> bool {
    exists|i: int| 0 <= i < syms.len() && #[trigger] syms[i].name@ == name && syms[i].depth == depth
}

/// The symbols that stay when the scope at depth `depth` closes.
pub open spec fn outside_scope(syms: Seq<Symbol>, depth: i32) -> Seq<Symbol> {
    syms.filter(|s: Symbol| s.depth < depth)
}

/// `sym` placed at depth `depth`.
pub open spec fn at_depth(sym: Symbol, depth: i32) -> Symbol {
    Symbol {
        name: sym.name,
        kind: sym.kind,
        mem: sym.mem,
        type_info: sym.type_info,
        depth,
        args: sym.args,
        locals: sym.locals,
        members: sym.members,
    }
}

/// The message of a refused definition.
pub open spec fn redefinition_message(name: Seq<char>) -> Seq<char> {
    seq!['S', 'y', 'm', 'b', 'o', 'l', ' ', 'r', 'e', 'd', 'e', 'f', 'i', 'n', 'i', 't', 'i', 'o',
    'n', ':', ' '] + name
}

pub proof fn lemma_last_index_of_bounds(syms: Seq<Symbol>, name: Seq<char>)
    ensures
        -1 <= last_index_of(syms, name) < syms.len(),
        last_index_of(syms, name) >= 0 ==> syms[last_index_of(syms, name)].name@ == name,
        forall|j: int|
            last_index_of(syms, name) < j < syms.len() ==> #[trigger] syms[j].name@ != name,
    decreases syms.len(),
{
    if syms.len() > 0 && syms.last().name@ != name {
        lemma_last_index_of_bounds(syms.drop_last(), name);
        assert forall|j: int| last_index_of(syms, name) < j < syms.len() implies #[trigger] syms[j].name@ != name by {
            if j < syms.len() - 1 {
                assert(syms[j] == syms.drop_last()[j]);
            }
        }
    }
}

impl SymTable {
    /// An empty table at depth 0, with no owner.
    pub fn new() -> (t: Self)
        ensures
            t.symbols@.len() == 0,
            t.current_depth == 0,
            t.owner_idx.is_none(),
    {
        Self { symbols: Vec::new(), current_depth: 0, owner_idx: None }
    }

    /// Opens a new scope.
    pub fn push_domain(&mut self)
        requires
            old(self).current_depth < i32::MAX,
        ensures
            final(self).current_depth == old(self).current_depth + 1,
            final(self).symbols@ == old(self).symbols@,
            final(self).owner_idx == old(self).owner_idx,
    {
        self.current_depth += 1;
    }

    /// Closes the current scope: every symbol defined at the current depth or
    /// deeper goes, the others stay in their order.
    pub fn drop_domain(&mut self)
        requires
            old(self).current_depth > i32::MIN,
        ensures
            final(self).symbols@ == outside_scope(old(self).symbols@, old(self).current_depth),
            final(self).current_depth == old(self).current_depth - 1,
            final(self).owner_idx == old(self).owner_idx,
    {
        let depth = self.current_depth;
        let ghost pred = |s: Symbol| s.depth < depth;
        let mut all: Vec<Symbol> = Vec::new();
        std::mem::swap(&mut all, &mut self.symbols);
        let ghost old_syms = all@;
        let mut kept: Vec<Symbol> = Vec::new();
        for s in it: all
            invariant
                it.seq() == old_syms,
                kept@ == old_syms.take(it.index() as int).filter(pred),
                old_syms == old(self).symbols@,
                pred == (|s: Symbol| s.depth < depth),
        {
            let ghost i = it.index() as int;
            proof {
                assert(old_syms.take(i + 1) =~= old_syms.take(i).push(s));
                old_syms.take(i).lemma_filter_push(s, pred);
            }
            if s.depth < depth {
                kept.push(s);
            }
        }
        assert(old_syms.take(old_syms.len() as int) =~= old_syms);
        self.symbols = kept;
        self.current_depth -= 1;
    }

    /// The last symbol defined with the name `name`, if there is one: inner
    /// scopes hide outer ones.
    pub fn find_symbol(&self, name: &str) -> (r: Option<&Symbol>)
        ensures
            match r {
                Some(s) => lookup(self.symbols@, name@) == Some(*s),
                None => lookup(self.symbols@, name@).is_none(),
            },
    {
        match self.index_of(name) {
            Some(i) => Some(&self.symbols[i]),
            None => None,
        }
    }

    /// The last symbol defined with the name `name`, if there is one, to be
    /// changed in place.
    pub fn find_symbol_mut(&mut self, name: &str) -> (r: Option<&mut Symbol>)
        ensures
            final(self).current_depth == old(self).current_depth,
            final(self).owner_idx == old(self).owner_idx,
            match r {
                Some(s) => {
                    let i = last_index_of(old(self).symbols@, name@);
                    &&& 0 <= i < old(self).symbols@.len()
                    &&& *s == old(self).symbols@[i]
                    &&& final(self).symbols@ == old(self).symbols@.update(i, *final(s))
                },
                None => {
                    &&& last_index_of(old(self).symbols@, name@) == -1
                    &&& final(self).symbols@ == old(self).symbols@
                },
            },
    {
        match self.index_of(name) {
            Some(i) => Some(&mut self.symbols[i]),
            None => None,
        }
    }

    /// Defines `sym` in the current scope. Two symbols of one name cannot be
    /// defined at the same depth; an inner scope may define a name that an
    /// outer one defines.
    pub fn add_symbol(&mut self, sym: Symbol) -> (r: Result<(), String>)
        ensures
            final(self).current_depth == old(self).current_depth,
            final(self).owner_idx == old(self).owner_idx,
            r is Err <==> defined_at(old(self).symbols@, sym.name@, old(self).current_depth),
            final(self).symbols@ == after_add(old(self).symbols@, sym, old(self).current_depth),
            match r {
                Ok(()) => final(self).symbols@ == old(self).symbols@.push(
                    at_depth(sym, old(self).current_depth),
                ),
                Err(m) => m@ == redefinition_message(sym.name@) && final(self).symbols@ == old(
                    self,
                ).symbols@,
            },
    {
        let depth = self.current_depth;
        let mut i: usize = 0;
        while i < self.symbols.len()
            invariant
                i <= self.symbols@.len(),
                self.symbols@ == old(self).symbols@,
                depth == old(self).current_depth,
                forall|j: int|
                    0 <= j < i ==> !(#[trigger] self.symbols@[j].name@ == sym.name@
                        && self.symbols@[j].depth == depth),
            decreases self.symbols@.len() - i,
        {
            if self.symbols[i].name == sym.name && self.symbols[i].depth == depth {
                assert(self.symbols@[i as int].name@ == sym.name@);
                return Err(redefinition_error(&sym.name));
            }
            i += 1;
        }
        let mut sym = sym;
        sym.depth = depth;
        self.symbols.push(sym);
        Ok(())
    }

    /// Makes the most recently defined symbol the owner of what follows.
    pub fn set_owner_to_last(&mut self)
        ensures
            final(self).symbols@ == old(self).symbols@,
            final(self).current_depth == old(self).current_depth,
            final(self).owner_idx == (if old(self).symbols@.len() > 0 {
                Some((old(self).symbols@.len() - 1) as usize)
            } else {
                old(self).owner_idx
            }),
    {
        if self.symbols.len() > 0 {
            self.owner_idx = Some(self.symbols.len() - 1);
        }
    }

    /// Forgets the owner.
    pub fn clear_owner(&mut self)
        ensures
            final(self).symbols@ == old(self).symbols@,
            final(self).current_depth == old(self).current_depth,
            final(self).owner_idx.is_none(),
    {
        self.owner_idx = None;
    }

    /// The position of the last symbol named `name`.
    fn index_of(&self, name: &str) -> (r: Option<usize>)
        ensures
            match r {
                Some(i) => i < self.symbols@.len() && i as int == last_index_of(self.symbols@, name@),
                None => last_index_of(self.symbols@, name@) == -1,
            },
    {
        proof {
            lemma_last_index_of_bounds(self.symbols@, name@);
        }
        let key = name.to_owned();
        let mut i = self.symbols.len();
        while i > 0
            invariant
                i <= self.symbols@.len(),
                key@ == name@,
                last_index_of(self.symbols@, name@) < i,
                -1 <= last_index_of(self.symbols@, name@),
                last_index_of(self.symbols@, name@) >= 0 ==> self.symbols@[last_index_of(
                    self.symbols@,
                    name@,
                )].name@ == name@,
                forall|j: int|
                    last_index_of(self.symbols@, name@) < j < self.symbols@.len()
                        ==> #[trigger] self.symbols@[j].name@ != name@,
                forall|j: int| i <= j < self.symbols@.len() ==> #[trigger] self.symbols@[j].name@ != name@,
            decreases i,
        {
            if self.symbols[i - 1].name == key {
                return Some(i - 1);
            }
            i -= 1;
        }
        None
    }
}

/// The message of a refused definition of `name`.
fn redefinition_error(name: &String) -> (m: String)
    ensures
        m@ == redefinition_message(name@),
{
    let prefix = "Symbol redefinition: ";
    proof {
        reveal_strlit("Symbol redefinition: ");
    }
    let m = joined(prefix, name);
    assert(m@ =~= redefinition_message(name@));
    m
}

/// The text `prefix` followed by `name`.
pub(crate) fn joined(prefix: &str, name: &String) -> (m: String)
    ensures
        m@ == prefix@ + name@,
{
    let mut m = prefix.to_owned();
    let ghost start = m@;
    let text: &str = name.as_str();
    let iter = text.chars();
    proof {
        vstd::string::axiom_spec_iter(text);
    }
    for c in it: iter
        invariant
            it.seq() == name@,
            start == prefix@,
            m@ == start + it.seq().take(it.index() as int),
    {
        proof {
            assert(it.seq().take(it.index() + 1) =~= it.seq().take(it.index() as int).push(c));
        }
        string_push(&mut m, c);
    }
    assert(name@.take(name@.len() as int) =~= name@);
    m
}

/// Every symbol is defined at depth `depth` or shallower.
pub open spec fn depths_within(syms: Seq<Symbol>, depth: int) -> bool {
    forall|i: int| 0 <= i < syms.len() ==> #[trigger] syms[i].depth <= depth
}

/// A symbol that was just defined is what a search for its name finds.
pub proof fn law_add_then_find(syms: Seq<Symbol>, sym: Symbol, depth: i32)
    ensures
        lookup(syms.push(at_depth(sym, depth)), sym.name@) == Some(at_depth(sym, depth)),
{
    let t = syms.push(at_depth(sym, depth));
    assert(t.last() == at_depth(sym, depth));
}

/// Defining a symbol leaves what a search finds for any other name as it was.
pub proof fn law_add_keeps_other_names(
    syms: Seq<Symbol>,
    sym: Symbol,
    depth: i32,
    name: Seq<char>,
)
    requires
        name != sym.name@,
    ensures
        lookup(syms.push(at_depth(sym, depth)), name) == lookup(syms, name),
{
    let t = syms.push(at_depth(sym, depth));
    assert(t.drop_last() =~= syms);
    assert(last_index_of(t, name) == last_index_of(syms, name));
    lemma_last_index_of_bounds(syms, name);
    let i = last_index_of(syms, name);
    if i >= 0 {
        assert(t[i] == syms[i]);
    }
}

/// Opening a scope, defining symbols in it and closing it gives back the
/// table as it was before the scope opened.
pub proof fn law_scope_round_trip(syms: Seq<Symbol>, inner: Seq<Symbol>, depth: i32)
    requires
        depth < i32::MAX,
        depths_within(syms, depth as int),
        forall|i: int| 0 <= i < inner.len() ==> #[trigger] inner[i].depth == depth + 1,
    ensures
        outside_scope(syms + inner, (depth + 1) as i32) == syms,
{
    let d = (depth + 1) as i32;
    let pred = |s: Symbol| s.depth < d;
    Seq::filter_distributes_over_add(syms, inner, pred);
    lemma_outside_scope_keeps(syms, d);
    lemma_outside_scope_drops(inner, d);
    assert(syms + Seq::<Symbol>::empty() =~= syms);
}

/// Closing a scope keeps every symbol of outer scopes.
proof fn lemma_outside_scope_keeps(syms: Seq<Symbol>, depth: i32)
    requires
        depths_within(syms, depth - 1),
    ensures
        outside_scope(syms, depth) == syms,
    decreases syms.len(),
{
    let pred = |s: Symbol| s.depth < depth;
    if syms.len() > 0 {
        let rest = syms.drop_last();
        assert(depths_within(rest, depth - 1)) by {
            assert forall|i: int| 0 <= i < rest.len() implies #[trigger] rest[i].depth <= depth - 1 by {
                assert(rest[i] == syms[i]);
            }
        }
        lemma_outside_scope_keeps(rest, depth);
        rest.lemma_filter_push(syms.last(), pred);
        assert(rest.push(syms.last()) =~= syms);
    } else {
        reveal(Seq::filter);
    }
}

/// Closing a scope drops every symbol of that scope.
proof fn lemma_outside_scope_drops(syms: Seq<Symbol>, depth: i32)
    requires
        forall|i: int| 0 <= i < syms.len() ==> #[trigger] syms[i].depth == depth,
    ensures
        outside_scope(syms, depth) == Seq::<Symbol>::empty(),
    decreases syms.len(),
{
    let pred = |s: Symbol| s.depth < depth;
    if syms.len() > 0 {
        let rest = syms.drop_last();
        assert forall|i: int| 0 <= i < rest.len() implies #[trigger] rest[i].depth == depth by {
            assert(rest[i] == syms[i]);
        }
        lemma_outside_scope_drops(rest, depth);
        rest.lemma_filter_push(syms.last(), pred);
        assert(rest.push(syms.last()) =~= syms);
    } else {
        reveal(Seq::filter);
        assert(syms.filter(pred) =~= Seq::<Symbol>::empty());
    }
}

/// Law: defining a symbol keeps every symbol at the depth that is open or
/// shallower.
pub proof fn law_define_within(syms: Seq<Symbol>, sym: Symbol, depth: i32)
    requires
        depths_within(syms, depth as int),
    ensures
        depths_within(syms.push(at_depth(sym, depth)), depth as int),
{
    let t = syms.push(at_depth(sym, depth));
    assert forall|i: int| 0 <= i < t.len() implies #[trigger] t[i].depth <= depth by {
        if i < syms.len() {
            assert(t[i] == syms[i]);
        }
    }
}

/// Law: opening a scope keeps every symbol at the depth that is open or
/// shallower.
pub proof fn law_open_within(syms: Seq<Symbol>, depth: i32)
    requires
        depths_within(syms, depth as int),
    ensures
        depths_within(syms, depth + 1),
{
}

/// Law: after a scope closes, every symbol left is at the depth that is open
/// or shallower.
pub proof fn law_close_within(syms: Seq<Symbol>, depth: i32)
    ensures
        depths_within(outside_scope(syms, depth), depth - 1),
{
    let pred = |s: Symbol| s.depth < depth;
    let f = outside_scope(syms, depth);
    assert forall|i: int| 0 <= i < f.len() implies #[trigger] f[i].depth <= depth - 1 by {
        syms.lemma_filter_pred(pred, i);
    }
}

/// The symbols after `add_symbol` is called with `sym` at depth `depth`:
/// defined, or refused when its name is already defined at that depth.
pub open spec fn after_add(syms: Seq<Symbol>, sym: Symbol, depth: i32) -> Seq<Symbol> {
    if defined_at(syms, sym.name@, depth) {
        syms
    } else {
        syms.push(at_depth(sym, depth))
    }
}

/// The symbols after `add_symbol` is called with each of `news` in turn at
/// depth `depth`.
pub open spec fn after_adds(syms: Seq<Symbol>, news: Seq<Symbol>, depth: i32) -> Seq<Symbol>
    decreases news.len(),
{
    if news.len() == 0 {
        syms
    } else {
        after_add(after_adds(syms, news.drop_last(), depth), news.last(), depth)
    }
}

/// Definitions keep the symbols there were and add only symbols at their depth.
proof fn lemma_after_adds(syms: Seq<Symbol>, news: Seq<Symbol>, depth: i32)
    ensures
        after_adds(syms, news, depth).len() >= syms.len(),
        after_adds(syms, news, depth).subrange(0, syms.len() as int) == syms,
        forall|i: int|
            syms.len() <= i < after_adds(syms, news, depth).len() ==> #[trigger] after_adds(
                syms,
                news,
                depth,
            )[i].depth == depth,
    decreases news.len(),
{
    if news.len() == 0 {
        assert(syms.subrange(0, syms.len() as int) =~= syms);
    } else {
        let prev = after_adds(syms, news.drop_last(), depth);
        lemma_after_adds(syms, news.drop_last(), depth);
        let cur = after_adds(syms, news, depth);
        assert(cur == after_add(prev, news.last(), depth));
        assert(cur.subrange(0, syms.len() as int) =~= prev.subrange(0, syms.len() as int));
        assert forall|i: int| syms.len() <= i < cur.len() implies #[trigger] cur[i].depth == depth by {
            if i < prev.len() {
                assert(cur[i] == prev[i]);
            }
        }
    }
}

/// Law: opening a scope, calling `add_symbol` any number of times in it, and
/// closing it gives back the symbols there were before the scope opened.
pub proof fn law_scope_undoes_definitions(syms: Seq<Symbol>, news: Seq<Symbol>, depth: i32)
    requires
        depth < i32::MAX,
        depths_within(syms, depth as int),
    ensures
        outside_scope(after_adds(syms, news, (depth + 1) as i32), (depth + 1) as i32) == syms,
{
    let d = (depth + 1) as i32;
    let all = after_adds(syms, news, d);
    lemma_after_adds(syms, news, d);
    let inner = all.subrange(syms.len() as int, all.len() as int);
    assert(all =~= syms + inner);
    assert forall|i: int| 0 <= i < inner.len() implies #[trigger] inner[i].depth == depth + 1 by {
        assert(inner[i] == all[syms.len() + i]);
    }
    law_scope_round_trip(syms, inner, depth);
}

/// Whether `b` is `a` with symbols at depth `depth` added after it.
pub open spec fn grows_at(a: Seq<Symbol>, b: Seq<Symbol>, depth: int) -> bool {
    &&& a.len() <= b.len()
    &&& b.subrange(0, a.len() as int) == a
    &&& forall|i: int| a.len() <= i < b.len() ==> #[trigger] b[i].depth == depth
}

/// A table grows from itself.
pub proof fn lemma_grows_refl(a: Seq<Symbol>, depth: int)
    ensures
        grows_at(a, a, depth),
{
    assert(a.subrange(0, a.len() as int) =~= a);
}

/// Growing twice at one depth is growing once.
pub proof fn lemma_grows_trans(a: Seq<Symbol>, b: Seq<Symbol>, c: Seq<Symbol>, depth: int)
    requires
        grows_at(a, b, depth),
        grows_at(b, c, depth),
    ensures
        grows_at(a, c, depth),
{
    assert(c.subrange(0, a.len() as int) =~= b.subrange(0, a.len() as int)) by {
        assert forall|i: int| 0 <= i < a.len() implies c.subrange(0, a.len() as int)[i] == b.subrange(
            0,
            a.len() as int,
        )[i] by {
            assert(c[i] == c.subrange(0, b.len() as int)[i]);
        }
    }
    assert forall|i: int| a.len() <= i < c.len() implies #[trigger] c[i].depth == depth by {
        if i < b.len() {
            assert(c[i] == c.subrange(0, b.len() as int)[i]);
        }
    }
}

/// A definition at the current depth grows the table.
pub proof fn lemma_grows_define(a: Seq<Symbol>, sym: Symbol, depth: i32)
    ensures
        grows_at(a, after_add(a, sym, depth), depth as int),
{
    let b = after_add(a, sym, depth);
    assert(b.subrange(0, a.len() as int) =~= a);
}

/// Law: closing a scope in which the table only grew gives back the table as
/// it was when the scope opened.
pub proof fn law_close_after_growth(a: Seq<Symbol>, b: Seq<Symbol>, depth: i32)
    requires
        depth < i32::MAX,
        depths_within(a, depth as int),
        grows_at(a, b, depth + 1),
    ensures
        outside_scope(b, (depth + 1) as i32) == a,
{
    let inner = b.subrange(a.len() as int, b.len() as int);
    assert(b =~= a + inner);
    assert forall|i: int| 0 <= i < inner.len() implies #[trigger] inner[i].depth == depth + 1 by {
        assert(inner[i] == b[a.len() + i]);
    }
    law_scope_round_trip(a, inner, depth);
}

} // verus!
