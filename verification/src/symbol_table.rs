//! Symbol tables of the compiler: which names are defined in which scope,
//! and under which index.
use vstd::prelude::*;
use crate::text::str_eq;

verus! {

/// Where a symbol's value lives at run time.
#[derive(Debug, PartialEq, Eq, Structural, Clone, Copy)]
pub enum SymbolScope {
    GlobalScope,
    LocalScope,
    BuiltinScope,
    FreeScope,
}

/// A defined name, its scope and its index in that scope.
#[derive(Debug, PartialEq, Clone)]
pub struct Symbol {
    pub name: String,
    pub scope: SymbolScope,
    pub index: usize,
}

/// A symbol as plain values: name, scope, index.
pub open spec fn sym_view(s: Symbol) -> (Seq<char>, SymbolScope, usize) {
    (s.name@, s.scope, s.index)
}

/// One scope's symbols (no name twice), the number of names defined in it,
/// the symbols of enclosing scopes it captures, and the enclosing scope.
#[derive(Debug)]
pub struct SymbolTable {
    pub outer: Option<Box<SymbolTable>>,
    pub store: Vec<Symbol>,
    pub num_definitions: usize,
    pub free_symbols: Vec<Symbol>,
}

/// The position of the symbol named `name`, if any.
pub open spec fn find_symbol(ss: Seq<Symbol>, name: Seq<char>) -> Option<int>
    decreases ss.len(),
{
    if ss.len() == 0 {
        None
    } else if ss.last().name@ == name {
        Some(ss.len() - 1)
    } else {
        find_symbol(ss.drop_last(), name)
    }
}

pub proof fn lemma_find_symbol(ss: Seq<Symbol>, name: Seq<char>)
    ensures
        find_symbol(ss, name) matches Some(i) ==> 0 <= i < ss.len() && ss[i].name@ == name,
        find_symbol(ss, name) is None ==> forall|j: int| 0 <= j < ss.len() ==> #[trigger] ss[j].name@ != name,
    decreases ss.len(),
{
    if ss.len() > 0 && ss.last().name@ != name {
        lemma_find_symbol(ss.drop_last(), name);
        assert forall|j: int| 0 <= j < ss.len() - 1 implies ss[j] == #[trigger] ss.drop_last()[j] by {}
        if find_symbol(ss, name) is None {
            assert forall|j: int| 0 <= j < ss.len() implies #[trigger] ss[j].name@ != name by {
                if j < ss.len() - 1 {
                    assert(ss[j] == ss.drop_last()[j]);
                }
            }
        }
    }
}

/// The symbol `name` resolves to in table `t`: its own symbol, else what an
/// enclosing scope resolves it to, where a local or free symbol of an
/// enclosing scope becomes a free symbol of this one, numbered after the
/// free symbols it has.
pub open spec fn spec_resolve(t: SymbolTable, name: Seq<char>) -> Option<(Seq<char>, SymbolScope, usize)>
    decreases t,
{
    match find_symbol(t.store@, name) {
        Some(i) => Some(sym_view(t.store@[i])),
        None => match t.outer {
            Some(o) => match spec_resolve(*o, name) {
                Some(s) => if s.1 == SymbolScope::GlobalScope || s.1 == SymbolScope::BuiltinScope {
                    Some(s)
                } else {
                    Some((name, SymbolScope::FreeScope, t.free_symbols@.len() as usize))
                },
                None => None,
            },
            None => None,
        },
    }
}

/// What a name resolves to carries that name.
pub proof fn lemma_resolve_name(t: SymbolTable, name: Seq<char>)
    ensures
        spec_resolve(t, name) matches Some(v) ==> v.0 == name,
    decreases t,
{
    lemma_find_symbol(t.store@, name);
    match t.outer {
        Some(o) => lemma_resolve_name(*o, name),
        None => {},
    }
}

/// The symbol that defining `name` in table `t` gives: a global in the
/// outermost scope, else a local, numbered after those defined before.
pub open spec fn defined_symbol(t: SymbolTable, name: Seq<char>) -> (Seq<char>, SymbolScope, usize) {
    (name, if t.outer is Some { SymbolScope::LocalScope } else { SymbolScope::GlobalScope }, t.num_definitions)
}

/// `t1` is `t0` with `name` defined in its own scope; the other names of
/// that scope keep their symbols.
pub open spec fn defined(t0: SymbolTable, t1: SymbolTable, name: Seq<char>) -> bool {
    &&& t1.wf()
    &&& spec_resolve(t1, name) == Some(defined_symbol(t0, name))
    &&& t1.num_definitions == t0.num_definitions + 1
    &&& t1.outer == t0.outer
    &&& t1.free_symbols@ == t0.free_symbols@
    &&& find_symbol(t1.store@, name) matches Some(i) && sym_view(t1.store@[i]) == defined_symbol(t0, name)
    &&& forall|n: Seq<char>|
        n != name ==> (match #[trigger] find_symbol(t0.store@, n) {
            Some(i) => find_symbol(t1.store@, n) matches Some(j) && t1.store@[j] == t0.store@[i],
            None => find_symbol(t1.store@, n) is None,
        })
}

/// `t1` is `t0` with the symbol `s` of an enclosing scope captured as its
/// next free symbol; the other names of the scope keep their symbols.
pub open spec fn free_defined(t0: SymbolTable, t1: SymbolTable, s: (Seq<char>, SymbolScope, usize)) -> bool {
    &&& t1.free_symbols@.len() == t0.free_symbols@.len() + 1
    &&& t1.free_symbols@.drop_last() == t0.free_symbols@
    &&& sym_view(t1.free_symbols@.last()) == s
    &&& t1.num_definitions == t0.num_definitions
    &&& t1.outer == t0.outer
    &&& find_symbol(t1.store@, s.0) matches Some(i) && sym_view(t1.store@[i]) == (
        s.0,
        SymbolScope::FreeScope,
        t0.free_symbols@.len() as usize,
    )
    &&& forall|n: Seq<char>|
        n != s.0 ==> (match #[trigger] find_symbol(t0.store@, n) {
            Some(i) => find_symbol(t1.store@, n) matches Some(j) && t1.store@[j] == t0.store@[i],
            None => find_symbol(t1.store@, n) is None,
        })
}

/// `t1` is `t0` once the enclosing table `o` has resolved `name` and become
/// `o1`: a local or free symbol found there is captured as a free symbol of
/// `t0`'s scope.
pub open spec fn resolution_after(t0: SymbolTable, o: SymbolTable, o1: SymbolTable, t1: SymbolTable, name: Seq<char>) -> bool {
    let mid = SymbolTable { outer: Some(Box::new(o1)), ..t0 };
    match spec_resolve(o, name) {
        Some(s) => if s.1 == SymbolScope::GlobalScope || s.1 == SymbolScope::BuiltinScope {
            t1 == mid
        } else {
            free_defined(mid, t1, s)
        },
        None => t1 == mid,
    }
}

/// `t1` is `t0` after resolving `name`: found in its own scope, or in none,
/// it stays as it was; else the enclosing scopes resolve it in turn, and a
/// local or free symbol of theirs is captured as a free symbol of this one.
pub open spec fn resolved(t0: SymbolTable, t1: SymbolTable, name: Seq<char>) -> bool
    decreases t0,
{
    &&& t1.wf()
    &&& spec_resolve(t1, name) == spec_resolve(t0, name)
    &&& t1.num_definitions == t0.num_definitions
    &&& (t1.outer is Some) == (t0.outer is Some)
    &&& match find_symbol(t0.store@, name) {
        Some(_) => t1 == t0,
        None => match t0.outer {
            None => t1 == t0,
            Some(o) => exists|o1: SymbolTable|
                #![trigger crate::step(o1)]
                #![trigger resolution_after(t0, *o, o1, t1, name)]
                resolved(*o, o1, name) && resolution_after(t0, *o, o1, t1, name),
        },
    }
}

/// Whether `name` is defined in table `t` or in one of the tables around it.
pub open spec fn bound_in_chain(t: SymbolTable, name: Seq<char>) -> bool
    decreases t,
{
    find_symbol(t.store@, name) is Some || match t.outer {
        Some(o) => bound_in_chain(*o, name),
        None => false,
    }
}

/// A name resolves to nothing exactly when no table of the chain, from `t`
/// outwards, holds it.
pub proof fn law_resolve_none_iff_unbound(t: SymbolTable, name: Seq<char>)
    ensures
        spec_resolve(t, name) is None <==> !bound_in_chain(t, name),
    decreases t,
{
    match t.outer {
        Some(o) => law_resolve_none_iff_unbound(*o, name),
        None => {},
    }
}

/// What resolving a name does, as one statement: it gives nothing exactly
/// when no table of the chain holds the name; a symbol of the table's own
/// scope is given back as it is and nothing changes; otherwise the enclosing
/// tables resolve the name, and a global or builtin found there is given
/// back with this table's own symbols unchanged, while a local or free
/// symbol found there is captured as the next free symbol of this table and
/// given back as that free symbol.
pub proof fn law_resolve(t0: SymbolTable, t1: SymbolTable, name: Seq<char>)
    requires
        resolved(t0, t1, name),
    ensures
        spec_resolve(t0, name) is None <==> !bound_in_chain(t0, name),
        spec_resolve(t1, name) == spec_resolve(t0, name),
        find_symbol(t0.store@, name) matches Some(i) ==> spec_resolve(t0, name) == Some(sym_view(t0.store@[i])) && t1 == t0,
        find_symbol(t0.store@, name) is None ==> match t0.outer {
            None => spec_resolve(t0, name) is None && t1 == t0,
            Some(o) => match spec_resolve(*o, name) {
                None => spec_resolve(t0, name) is None && t1.store == t0.store && t1.free_symbols == t0.free_symbols,
                Some(s) => if s.1 == SymbolScope::GlobalScope || s.1 == SymbolScope::BuiltinScope {
                    spec_resolve(t0, name) == Some(s) && t1.store == t0.store && t1.free_symbols == t0.free_symbols
                } else {
                    &&& spec_resolve(t0, name) == Some((name, SymbolScope::FreeScope, t0.free_symbols@.len() as usize))
                    &&& t1.free_symbols@ == t0.free_symbols@.push(t1.free_symbols@.last())
                    &&& sym_view(t1.free_symbols@.last()) == s
                    &&& find_symbol(t1.store@, name) matches Some(j) && sym_view(t1.store@[j]) == (
                        name,
                        SymbolScope::FreeScope,
                        t0.free_symbols@.len() as usize,
                    )
                },
            },
        },
{
    law_resolve_none_iff_unbound(t0, name);
    match find_symbol(t0.store@, name) {
        Some(_) => {},
        None => match t0.outer {
            None => {},
            Some(o) => {
                let o1 = choose|o1: SymbolTable|
                    #![trigger resolution_after(t0, *o, o1, t1, name)]
                    resolved(*o, o1, name) && resolution_after(t0, *o, o1, t1, name);
                lemma_resolve_name(*o, name);
                match spec_resolve(*o, name) {
                    Some(s) => if !(s.1 == SymbolScope::GlobalScope || s.1 == SymbolScope::BuiltinScope) {
                        assert(t1.free_symbols@ =~= t0.free_symbols@.push(t1.free_symbols@.last()));
                    },
                    None => {},
                }
            },
        },
    }
}

/// Resolving a name a second time gives the same symbol as the first time
/// and changes no table: a free variable is captured at most once.
pub proof fn law_resolve_twice(t0: SymbolTable, t1: SymbolTable, t2: SymbolTable, name: Seq<char>)
    requires
        resolved(t0, t1, name),
        resolved(t1, t2, name),
    ensures
        spec_resolve(t1, name) == spec_resolve(t0, name),
        spec_resolve(t2, name) == spec_resolve(t0, name),
        t2 == t1,
    decreases t0,
{
    match find_symbol(t0.store@, name) {
        Some(_) => {},
        None => match t0.outer {
            None => {},
            Some(o) => {
                let o1 = choose|o1: SymbolTable|
                    #![trigger resolution_after(t0, *o, o1, t1, name)]
                    resolved(*o, o1, name) && resolution_after(t0, *o, o1, t1, name);
                match spec_resolve(*o, name) {
                    Some(s) => if s.1 == SymbolScope::GlobalScope || s.1 == SymbolScope::BuiltinScope {
                        assert(t1.store == t0.store);
                        assert(t1.outer == Some(Box::new(o1)));
                        let o2 = choose|o2: SymbolTable|
                            #![trigger resolution_after(t1, o1, o2, t2, name)]
                            resolved(o1, o2, name) && resolution_after(t1, o1, o2, t2, name);
                        law_resolve_twice(*o, o1, o2, name);
                        assert(spec_resolve(o1, name) == spec_resolve(*o, name));
                        assert(t2 == SymbolTable { outer: Some(Box::new(o2)), ..t1 });
                    } else {
                        lemma_resolve_name(*o, name);
                        assert(find_symbol(t1.store@, name) is Some);
                    },
                    None => {
                        assert(t1.store == t0.store);
                        let o2 = choose|o2: SymbolTable|
                            #![trigger resolution_after(t1, o1, o2, t2, name)]
                            resolved(o1, o2, name) && resolution_after(t1, o1, o2, t2, name);
                        law_resolve_twice(*o, o1, o2, name);
                        assert(t2 == SymbolTable { outer: Some(Box::new(o2)), ..t1 });
                    },
                }
            },
        },
    }
}

impl SymbolTable {
    /// No name is defined twice in this scope, nor in the scopes around it.
    pub open spec fn wf(&self) -> bool
        decreases *self,
    {
        &&& forall|i: int, j: int|
            0 <= i < j < self.store@.len() ==> #[trigger] self.store@[i].name@ != #[trigger] self.store@[j].name@
        &&& match self.outer {
            Some(o) => o.wf(),
            None => true,
        }
    }

    /// An empty outermost scope.
    pub fn new() -> (t: SymbolTable)
        ensures
            t.wf(),
            t.outer is None,
            t.store@.len() == 0,
            t.num_definitions == 0,
            t.free_symbols@.len() == 0,
    {
        SymbolTable { outer: None, store: Vec::new(), num_definitions: 0, free_symbols: Vec::new() }
    }

    /// An empty scope enclosed by `outer`.
    pub fn new_enclosed_symbol_table(outer: SymbolTable) -> (t: SymbolTable)
        ensures
            t.outer == Some(Box::new(outer)),
            t.store@.len() == 0,
            t.num_definitions == 0,
            t.free_symbols@.len() == 0,
    {
        SymbolTable { outer: Some(Box::new(outer)), store: Vec::new(), num_definitions: 0, free_symbols: Vec::new() }
    }

    /// The position of the symbol named `name` in this scope.
    fn position(&self, name: &str) -> (r: Option<usize>)
        ensures
            r matches Some(i) ==> find_symbol(self.store@, name@) == Some(i as int),
            r is None ==> find_symbol(self.store@, name@) is None,
    {
        let mut i: usize = self.store.len();
        assert(self.store@.take(i as int) =~= self.store@);
        while i > 0
            invariant
                i <= self.store@.len(),
                find_symbol(self.store@, name@) == find_symbol(self.store@.take(i as int), name@),
            decreases i,
        {
            assert(self.store@.take(i as int).drop_last() =~= self.store@.take(i - 1));
            if str_eq(self.store[i - 1].name.as_str(), name) {
                return Some(i - 1);
            }
            i = i - 1;
        }
        None
    }

    /// Stores `sym` in this scope, replacing a symbol of the same name.
    fn insert(&mut self, sym: Symbol)
        requires
            old(self).wf(),
        ensures
            final(self).wf(),
            final(self).outer == old(self).outer,
            final(self).num_definitions == old(self).num_definitions,
            final(self).free_symbols@ == old(self).free_symbols@,
            find_symbol(final(self).store@, sym.name@) matches Some(i) && final(self).store@[i] == sym,
            forall|n: Seq<char>|
                n != sym.name@ ==> (match #[trigger] find_symbol(old(self).store@, n) {
                    Some(i) => find_symbol(final(self).store@, n) matches Some(j) && final(self).store@[j] == old(self).store@[i],
                    None => find_symbol(final(self).store@, n) is None,
                }),
    {
        proof {
            lemma_find_symbol(old(self).store@, sym.name@);
        }
        let ghost name = sym.name@;
        match self.position(sym.name.as_str()) {
            Some(i) => {
                self.store.set(i, sym);
                proof {
                    assert forall|a: int, b: int| 0 <= a < b < self.store@.len() implies #[trigger] self.store@[a].name@
                        != #[trigger] self.store@[b].name@ by {
                        assert(self.store@[a].name@ == old(self).store@[a].name@);
                        assert(self.store@[b].name@ == old(self).store@[b].name@);
                    }
                    assert forall|n: Seq<char>| n != name implies (match #[trigger] find_symbol(old(self).store@, n) {
                        Some(k) => find_symbol(self.store@, n) matches Some(j) && self.store@[j] == old(self).store@[k],
                        None => find_symbol(self.store@, n) is None,
                    }) by {
                        lemma_find_symbol_update(old(self).store@, i as int, self.store@[i as int], n);
                        lemma_find_symbol(old(self).store@, n);
                    }
                    lemma_unique_symbol(self.store@, i as int, name);
                }
            },
            None => {
                self.store.push(sym);
                proof {
                    assert(self.store@.drop_last() =~= old(self).store@);
                    assert forall|a: int, b: int| 0 <= a < b < self.store@.len() implies #[trigger] self.store@[a].name@
                        != #[trigger] self.store@[b].name@ by {
                        assert(self.store@[a] == old(self).store@[a]);
                        if b < self.store@.len() - 1 {
                            assert(self.store@[b] == old(self).store@[b]);
                        }
                    }
                    assert forall|n: Seq<char>| n != name implies (match #[trigger] find_symbol(old(self).store@, n) {
                        Some(k) => find_symbol(self.store@, n) matches Some(j) && self.store@[j] == old(self).store@[k],
                        None => find_symbol(self.store@, n) is None,
                    }) by {
                        lemma_find_symbol(old(self).store@, n);
                    }
                }
            },
        }
    }

    /// Defines `name` in this scope: global in the outermost scope, local in
    /// any other, numbered after the names defined before it.
    pub fn define(&mut self, name: &str) -> (s: Symbol)
        requires
            old(self).wf(),
            old(self).num_definitions < usize::MAX,
        ensures
            sym_view(s) == defined_symbol(*old(self), name@),
            defined(*old(self), *final(self), name@),
    {
        let scope = if self.outer.is_some() { SymbolScope::LocalScope } else { SymbolScope::GlobalScope };
        let symbol = Symbol { name: String::from_str(name), scope, index: self.num_definitions };
        let result = Symbol { name: String::from_str(name), scope, index: self.num_definitions };
        self.insert(symbol);
        self.num_definitions = self.num_definitions + 1;
        result
    }

    /// Defines `name` as the builtin numbered `index`.
    pub fn define_builtin(&mut self, index: usize, name: &str) -> (s: Symbol)
        requires
            old(self).wf(),
        ensures
            final(self).wf(),
            sym_view(s) == (name@, SymbolScope::BuiltinScope, index),
            spec_resolve(*final(self), name@) == Some(sym_view(s)),
            final(self).num_definitions == old(self).num_definitions,
            final(self).outer == old(self).outer,
            final(self).free_symbols@ == old(self).free_symbols@,
            find_symbol(final(self).store@, name@) matches Some(i) && sym_view(final(self).store@[i]) == sym_view(s),
            forall|n: Seq<char>|
                n != name@ ==> (match #[trigger] find_symbol(old(self).store@, n) {
                    Some(i) => find_symbol(final(self).store@, n) matches Some(j) && final(self).store@[j] == old(self).store@[i],
                    None => find_symbol(final(self).store@, n) is None,
                }),
    {
        let symbol = Symbol { name: String::from_str(name), scope: SymbolScope::BuiltinScope, index };
        let result = Symbol { name: String::from_str(name), scope: SymbolScope::BuiltinScope, index };
        self.insert(symbol);
        result
    }

    /// Captures `original`, a symbol of an enclosing scope, as the next free
    /// symbol of this one.
    pub fn define_free(&mut self, original: Symbol) -> (s: Symbol)
        requires
            old(self).wf(),
        ensures
            final(self).wf(),
            sym_view(s) == (original.name@, SymbolScope::FreeScope, old(self).free_symbols@.len() as usize),
            final(self).free_symbols@ == old(self).free_symbols@.push(original),
            free_defined(*old(self), *final(self), sym_view(original)),
            final(self).num_definitions == old(self).num_definitions,
            final(self).outer == old(self).outer,
            find_symbol(final(self).store@, original.name@) matches Some(i) && sym_view(final(self).store@[i]) == sym_view(s),
            forall|n: Seq<char>|
                n != original.name@ ==> (match #[trigger] find_symbol(old(self).store@, n) {
                    Some(i) => find_symbol(final(self).store@, n) matches Some(j) && final(self).store@[j] == old(self).store@[i],
                    None => find_symbol(final(self).store@, n) is None,
                }),
    {
        let index = self.free_symbols.len();
        let name = original.name.clone();
        let name2 = original.name.clone();
        self.free_symbols.push(original);
        let symbol = Symbol { name, scope: SymbolScope::FreeScope, index };
        self.insert(symbol);
        assert(self.free_symbols@.drop_last() =~= old(self).free_symbols@);
        Symbol { name: name2, scope: SymbolScope::FreeScope, index }
    }

    /// Resolves `name`: in this scope, else in the enclosing scopes, where a
    /// local or free symbol of an enclosing scope is captured as a free
    /// symbol of this one.
    pub fn resolve(&mut self, name: &str) -> (r: Option<Symbol>)
        requires
            old(self).wf(),
        ensures
            match r {
                Some(s) => spec_resolve(*old(self), name@) == Some(sym_view(s)),
                None => spec_resolve(*old(self), name@) is None,
            },
            resolved(*old(self), *final(self), name@),
        decreases *old(self),
    {
        proof {
            lemma_find_symbol(self.store@, name@);
            lemma_resolve_name(*self, name@);
        }
        match self.position(name) {
            Some(i) => {
                let s = &self.store[i];
                return Some(Symbol { name: s.name.clone(), scope: s.scope, index: s.index });
            },
            None => {},
        }
        let mut outer = None;
        std::mem::swap(&mut outer, &mut self.outer);
        match outer {
            None => None,
            Some(mut o) => {
                let ghost o_old = *o;
                let found = o.resolve(name);
                proof {
                    lemma_resolve_name(o_old, name@);
                    assert(crate::step(*o));
                }
                self.outer = Some(o);
                match found {
                    None => None,
                    Some(s) => {
                        if s.scope == SymbolScope::GlobalScope || s.scope == SymbolScope::BuiltinScope {
                            Some(s)
                        } else {
                            let f = self.define_free(s);
                            Some(f)
                        }
                    },
                }
            },
        }
    }
}

/// Replacing a symbol by one of the same name leaves the lookups of other
/// names unchanged.
proof fn lemma_find_symbol_update(ss: Seq<Symbol>, i: int, s: Symbol, n: Seq<char>)
    requires
        0 <= i < ss.len(),
        s.name@ == ss[i].name@,
        n != s.name@,
    ensures
        find_symbol(ss.update(i, s), n) == find_symbol(ss, n),
    decreases ss.len(),
{
    if i < ss.len() - 1 {
        assert(ss.update(i, s).drop_last() =~= ss.drop_last().update(i, s));
        lemma_find_symbol_update(ss.drop_last(), i, s, n);
    } else {
        assert(ss.update(i, s).drop_last() =~= ss.drop_last());
    }
}

/// Where no name repeats, the symbol at `i` is the one found for its name.
proof fn lemma_unique_symbol(ss: Seq<Symbol>, i: int, name: Seq<char>)
    requires
        0 <= i < ss.len(),
        ss[i].name@ == name,
        forall|a: int, b: int| 0 <= a < b < ss.len() ==> #[trigger] ss[a].name@ != #[trigger] ss[b].name@,
    ensures
        find_symbol(ss, name) == Some(i),
    decreases ss.len(),
{
    if i < ss.len() - 1 {
        let t = ss.drop_last();
        assert forall|a: int, b: int| 0 <= a < b < t.len() implies #[trigger] t[a].name@ != #[trigger] t[b].name@ by {
            assert(t[a] == ss[a]);
            assert(t[b] == ss[b]);
        }
        assert(ss.last().name@ != name);
        lemma_unique_symbol(t, i, name);
    }
}

} // verus!
