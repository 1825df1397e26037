//! Scopes. A scope owns a symbol table of its own, which maps a name to
//! the declaration that introduced it. Scopes are not chained: a name is
//! looked up in the active scope only.

use vstd::prelude::*;
use crate::ast::{is_resolved, VarDecl, VarDeclView};

verus! {

/// The table that the first `n` declarations of a list make: each name
/// is bound to the latest declaration of it.
pub open spec fn symbols_upto(entries: Seq<VarDecl>, n: int) -> Map<Seq<u8>, VarDeclView>
    decreases n,
{
    if 0 < n <= entries.len() {
        symbols_upto(entries, n - 1).insert(entries[n - 1].name_token@.text, entries[n - 1]@)
    } else {
        Map::empty()
    }
}

/// A symbol table: the declarations of a scope by name.
#[derive(Debug)]
pub struct SymMap {
    entries: Vec<VarDecl>,
}

impl View for SymMap {
    type V = Map<Seq<u8>, VarDeclView>;

    closed spec fn view(&self) -> Map<Seq<u8>, VarDeclView> {
        symbols_upto(self.entries@, self.entries@.len() as int)
    }
}

/// Whether the value of every declaration of a table holds no reference
/// to a variable.
pub open spec fn all_resolved(m: Map<Seq<u8>, VarDeclView>) -> bool {
    forall|name: Seq<u8>| m.dom().contains(name) ==> is_resolved(#[trigger] m[name].value)
}

proof fn lemma_symbols_finite(entries: Seq<VarDecl>, n: int)
    ensures
        symbols_upto(entries, n).dom().finite(),
    decreases n,
{
    if 0 < n <= entries.len() {
        lemma_symbols_finite(entries, n - 1);
    }
}

proof fn lemma_symbols_same(a: Seq<VarDecl>, b: Seq<VarDecl>, n: int)
    requires
        0 <= n <= a.len(),
        n <= b.len(),
        forall|i: int| 0 <= i < n ==> (#[trigger] a[i])@ == b[i]@,
    ensures
        symbols_upto(a, n) == symbols_upto(b, n),
    decreases n,
{
    if n > 0 {
        lemma_symbols_same(a, b, n - 1);
    }
}

impl SymMap {
    /// A table binds finitely many names.
    pub proof fn lemma_finite(&self)
        ensures
            self@.dom().finite(),
    {
        lemma_symbols_finite(self.entries@, self.entries@.len() as int);
    }

    /// The empty table.
    pub fn new() -> (r: SymMap)
        ensures
            r@ == Map::<Seq<u8>, VarDeclView>::empty(),
    {
        SymMap { entries: Vec::new() }
    }

    /// Binds the name of `decl` to `decl`. An earlier binding of the name
    /// is replaced.
    pub fn insert(&mut self, decl: VarDecl)
        ensures
            final(self)@ == old(self)@.insert(decl.name_token@.text, decl@),
    {
        proof {
            lemma_symbols_same(
                self.entries@,
                self.entries@.push(decl),
                self.entries@.len() as int,
            );
        }
        self.entries.push(decl);
    }

    /// The declaration that `name` is bound to, if there is one.
    pub fn get(&self, name: &[u8]) -> (r: Option<&VarDecl>)
        ensures
            match r {
                Some(d) => self@.dom().contains(name@) && d@ == self@[name@],
                None => !self@.dom().contains(name@),
            },
    {
        let mut i: usize = self.entries.len();
        while i > 0
            invariant
                i <= self.entries@.len(),
                self@.dom().contains(name@) == symbols_upto(self.entries@, i as int).dom().contains(
                    name@,
                ),
                self@.dom().contains(name@) ==> self@[name@] == symbols_upto(
                    self.entries@,
                    i as int,
                )[name@],
            decreases i,
        {
            i -= 1;
            if crate::text::bytes_eq(self.entries[i].name_token.string.as_slice(), name) {
                return Some(&self.entries[i]);
            }
        }
        None
    }
}

impl Clone for SymMap {
    fn clone(&self) -> (r: Self)
        ensures
            r@ == self@,
    {
        let mut entries: Vec<VarDecl> = Vec::new();
        let mut i: usize = 0;
        while i < self.entries.len()
            invariant
                i <= self.entries@.len(),
                entries@.len() == i,
                forall|j: int| 0 <= j < i ==> (#[trigger] entries@[j])@ == self.entries@[j]@,
            decreases self.entries@.len() - i,
        {
            entries.push(self.entries[i].clone());
            i += 1;
        }
        proof {
            lemma_symbols_same(entries@, self.entries@, i as int);
        }
        SymMap { entries }
    }
}

/// A scope: the global one, that of a function body, or that of the
/// arguments of a call; each with its symbol table.
#[derive(Debug)]
pub enum Ctx {
    Fn(SymMap),
    Global(SymMap),
    FnCall(SymMap),
}

/// The model of a [`Ctx`].
pub enum CtxView {
    Fn(Map<Seq<u8>, VarDeclView>),
    Global(Map<Seq<u8>, VarDeclView>),
    FnCall(Map<Seq<u8>, VarDeclView>),
}

impl CtxView {
    /// The symbol table of the scope.
    pub open spec fn symbols(self) -> Map<Seq<u8>, VarDeclView> {
        match self {
            CtxView::Fn(m) => m,
            CtxView::Global(m) => m,
            CtxView::FnCall(m) => m,
        }
    }

    /// The same kind of scope with the table `m`.
    pub open spec fn with_symbols(self, m: Map<Seq<u8>, VarDeclView>) -> CtxView {
        match self {
            CtxView::Fn(_) => CtxView::Fn(m),
            CtxView::Global(_) => CtxView::Global(m),
            CtxView::FnCall(_) => CtxView::FnCall(m),
        }
    }
}

impl View for Ctx {
    type V = CtxView;

    open spec fn view(&self) -> CtxView {
        match *self {
            Ctx::Fn(m) => CtxView::Fn(m@),
            Ctx::Global(m) => CtxView::Global(m@),
            Ctx::FnCall(m) => CtxView::FnCall(m@),
        }
    }
}

impl Clone for Ctx {
    fn clone(&self) -> (r: Self)
        ensures
            r@ == self@,
    {
        match self {
            Ctx::Fn(m) => Ctx::Fn(m.clone()),
            Ctx::Global(m) => Ctx::Global(m.clone()),
            Ctx::FnCall(m) => Ctx::FnCall(m.clone()),
        }
    }
}

impl Ctx {
    /// The symbol table of the scope.
    pub fn sym_map(&self) -> (r: &SymMap)
        ensures
            r@ == self@.symbols(),
    {
        match self {
            Ctx::Fn(sm) => sm,
            Ctx::FnCall(sm) => sm,
            Ctx::Global(sm) => sm,
        }
    }

    /// The symbol table of the scope, to be changed in place.
    pub fn sym_map_mut(&mut self) -> (r: &mut SymMap)
        ensures
            r@ == old(self)@.symbols(),
            final(self)@ == old(self)@.with_symbols(final(r)@),
    {
        match self {
            Ctx::Fn(sm) => sm,
            Ctx::FnCall(sm) => sm,
            Ctx::Global(sm) => sm,
        }
    }

    /// A function scope without any name.
    pub fn empty_fn() -> (r: Ctx)
        ensures
            r@ == CtxView::Fn(Map::empty()),
    {
        Ctx::Fn(SymMap::new())
    }

    /// A call-argument scope without any name.
    pub fn empty_fncall() -> (r: Ctx)
        ensures
            r@ == CtxView::FnCall(Map::empty()),
    {
        Ctx::FnCall(SymMap::new())
    }

    /// A global scope without any name.
    pub fn empty_global() -> (r: Ctx)
        ensures
            r@ == CtxView::Global(Map::empty()),
    {
        Ctx::Global(SymMap::new())
    }

    /// Binds the name of `decl` to `decl` in this scope. The latest
    /// declaration of a name wins.
    pub fn declare(&mut self, decl: VarDecl)
        ensures
            final(self)@ == old(self)@.with_symbols(
                old(self)@.symbols().insert(decl.name_token@.text, decl@),
            ),
    {
        match self {
            Ctx::Fn(sm) => sm.insert(decl),
            Ctx::FnCall(sm) => sm.insert(decl),
            Ctx::Global(sm) => sm.insert(decl),
        }
    }

    /// The declaration of `name` in this scope. No other scope is
    /// looked at.
    pub fn resolve(&self, name: &[u8]) -> (r: Option<&VarDecl>)
        ensures
            match r {
                Some(d) => self@.symbols().dom().contains(name@) && d@ == self@.symbols()[name@],
                None => !self@.symbols().dom().contains(name@),
            },
    {
        self.sym_map().get(name)
    }
}

} // verus!
