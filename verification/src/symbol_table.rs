//! A flat name-to-declaration map filled while parsing.
//!
//! One single namespace serves both scopes: a for-loop variable occupies
//! the same namespace as the globals and collides with them. That flatness
//! is part of the component's observable behaviour and is kept; a genuine
//! lexical-scope redesign would use a scope stack instead.
//!
//! The table fails fast: a structurally malformed node, a declaration
//! without its type label, or a redeclared name is a fatal
//! internal-consistency failure, reported through [`FatalError`] so that
//! compilation stops rather than a diagnostic being recorded.

use vstd::prelude::*;

use crate::ast::{Ast, AstType};

verus! {

/// Where a symbol was declared.
#[derive(Clone, Copy, PartialEq, Eq, Structural, Debug)]
pub enum Scope {
    /// A `let` binding or an externally supplied configuration value.
    Global,
    /// A for-loop iteration variable.
    ForLocal,
}

/// A hard failure that must abort compilation, as opposed to a recoverable
/// diagnostic.
#[derive(Clone, Copy, PartialEq, Eq, Structural, Debug)]
pub enum FatalError {
    /// A node of the wrong kind reached the symbol table.
    InvalidNode,
    /// An assignment node without its two expected children.
    MalformedNode,
    /// A declaration without a type label.
    MissingType,
    /// The name is already taken, whatever the scope of its first owner.
    Redeclared,
}

/// One named declaration: its name, declared type label, literal value and
/// scope tag. Never removed or reassigned during a compile.
#[derive(Clone, PartialEq, Debug)]
pub struct Symbol {
    pub name: String,
    pub sym_type: String,
    pub val: String,
    pub scope: Scope,
}

/// The fields of a symbol that contracts speak about.
pub open spec fn symbol_is(sym: Symbol, name: Seq<char>, ty: Seq<char>, val: Seq<char>, scope: Scope) -> bool {
    &&& sym.name@ == name
    &&& sym.sym_type@ == ty
    &&& sym.val@ == val
    &&& sym.scope == scope
}

/// The flat symbol table. Its view is the map from each declared name to
/// its symbol; no two stored symbols share a name.
pub struct SymbolTable {
    table: Vec<Symbol>,
}

/// The map described by a sequence of symbols, later entries winning.
pub open spec fn map_of(s: Seq<Symbol>) -> Map<Seq<char>, Symbol>
    decreases s.len(),
{
    if s.len() == 0 {
        Map::empty()
    } else {
        map_of(s.drop_last()).insert(s.last().name@, s.last())
    }
}

/// Every symbol map is a submap of itself.
pub broadcast proof fn lemma_submap_of_refl(m: Map<Seq<char>, Symbol>)
    ensures
        #[trigger] m.submap_of(m),
{
}

/// A submap's entries stand unchanged in the larger map.
pub broadcast proof fn lemma_submap_entry(
    m1: Map<Seq<char>, Symbol>,
    m2: Map<Seq<char>, Symbol>,
    k: Seq<char>,
)
    requires
        #[trigger] m1.submap_of(m2),
        #[trigger] m1.dom().contains(k),
    ensures
        m2.dom().contains(k),
        m1[k] == m2[k],
{
    if m1.dom().contains(k) {
        assert(m2.dom().contains(k));
        assert(m1[k] == m2[k]);
    }
}

/// Inserting a fresh name only grows the map: the old table is a submap.
pub broadcast proof fn lemma_submap_of_insert(m: Map<Seq<char>, Symbol>, k: Seq<char>, v: Symbol)
    ensures
        !m.contains_key(k) ==> m.submap_of(#[trigger] m.insert(k, v)),
{
}

/// Membership in `map_of` is exactly having some entry with that name.
pub proof fn lemma_map_of_contains(s: Seq<Symbol>, name: Seq<char>)
    ensures
        map_of(s).contains_key(name) <==> exists|i: int| 0 <= i < s.len() && (#[trigger] s[i]).name@
            == name,
    decreases s.len(),
{
    if s.len() > 0 {
        lemma_map_of_contains(s.drop_last(), name);
        if s.last().name@ == name {
            assert(s[s.len() - 1].name@ == name);
        } else if map_of(s).contains_key(name) {
            let i = choose|i: int| 0 <= i < s.drop_last().len() && (#[trigger] s.drop_last()[i]).name@ == name;
            assert(s[i].name@ == name);
        } else {
            assert(forall|i: int| 0 <= i < s.len() - 1 ==> s.drop_last()[i] == (#[trigger] s[i]));
        }
    }
}

impl View for SymbolTable {
    type V = Map<Seq<char>, Symbol>;

    closed spec fn view(&self) -> Map<Seq<char>, Symbol> {
        map_of(self.table@)
    }
}

impl SymbolTable {
    /// No two stored symbols share a name, whatever their scope tags: the
    /// internal invariant that every constructor establishes and every
    /// insertion keeps.
    pub closed spec fn wf(&self) -> bool {
        forall|p: int, q: int| 0 <= p < q < self.table@.len() ==> (#[trigger] self.table@[p]).name@
            != (#[trigger] self.table@[q]).name@
    }

    /// An empty table.
    pub fn new() -> (t: SymbolTable)
        ensures
            t@ == Map::<Seq<char>, Symbol>::empty(),
            t.wf(),
    {
        SymbolTable { table: Vec::new() }
    }

    /// Whether `name` is declared, whatever its scope.
    fn contains(&self, name: &String) -> (r: bool)
        ensures
            r == self@.contains_key(name@),
    {
        let n = self.table.len();
        let mut i: usize = 0;
        while i < n
            invariant
                n == self.table@.len(),
                i <= n,
                forall|k: int| 0 <= k < i ==> (#[trigger] self.table@[k]).name@ != name@,
            decreases n - i,
        {
            if self.table[i].name == *name {
                proof {
                    let w = i as int;
                    assert(0 <= w < self.table@.len() && self.table@[w].name@ == name@);
                    lemma_map_of_contains(self.table@, name@);
                }
                return true;
            }
            i = i + 1;
        }
        proof {
            lemma_map_of_contains(self.table@, name@);
        }
        false
    }

    /// Seeds a table with one `Global` symbol of generic string type for
    /// each externally supplied name-to-literal pair. The pairs come from
    /// a mapping, so their names are pairwise distinct.
    pub fn from_existing_map(map: &Vec<(String, String)>) -> (t: SymbolTable)
        requires
            forall|i: int, j: int| 0 <= i < j < map@.len() ==> (#[trigger] map@[i]).0@ != (
            #[trigger] map@[j]).0@,
        ensures
            forall|i: int| 0 <= i < map@.len() ==> t@.contains_key((#[trigger] map@[i]).0@)
                && symbol_is(t@[map@[i].0@], map@[i].0@, "String"@, map@[i].1@, Scope::Global),
            forall|name: Seq<char>| t@.contains_key(name) ==> exists|i: int| 0 <= i < map@.len()
                && (#[trigger] map@[i]).0@ == name,
            t.wf(),
    {
        let n = map.len();
        let mut table: Vec<Symbol> = Vec::new();
        let mut i: usize = 0;
        while i < n
            invariant
                n == map@.len(),
                i <= n,
                table@.len() == i,
                forall|k: int| 0 <= k < i ==> symbol_is(
                    #[trigger] table@[k],
                    map@[k].0@,
                    "String"@,
                    map@[k].1@,
                    Scope::Global,
                ),
            decreases n - i,
        {
            let pair = &map[i];
            let sym = Symbol {
                name: pair.0.clone(),
                sym_type: "String".to_owned(),
                val: pair.1.clone(),
                scope: Scope::Global,
            };
            table.push(sym);
            i = i + 1;
        }
        let t = SymbolTable { table };
        proof {
            assert forall|k: int| 0 <= k < map@.len() implies t@.contains_key(
                (#[trigger] map@[k]).0@,
            ) && symbol_is(t@[map@[k].0@], map@[k].0@, "String"@, map@[k].1@, Scope::Global) by {
                lemma_map_of_last_wins(t.table@, k);
            }
            assert forall|name: Seq<char>| t@.contains_key(name) implies exists|i: int| 0 <= i
                < map@.len() && (#[trigger] map@[i]).0@ == name by {
                lemma_map_of_contains(t.table@, name);
            }
        }
        t
    }

    /// Registers a `let` declaration. Expects an `AssignExpr` whose first
    /// child is the identifier carrying the declared-type label and whose
    /// second child is the value; anything else, or a name already taken,
    /// is a fatal failure and leaves the table unchanged.
    pub fn insert(&mut self, ast: &Ast) -> (r: Result<(), FatalError>)
        requires
            old(self).wf(),
        ensures
            final(self).wf(),
            ast.ast_type != AstType::AssignExpr ==> r == Err::<(), FatalError>(
                FatalError::InvalidNode,
            ) && final(self)@ == old(self)@,
            ast.ast_type == AstType::AssignExpr && ast.children@.len() < 2 ==> r == Err::<
                (),
                FatalError,
            >(FatalError::MalformedNode) && final(self)@ == old(self)@,
            ast.ast_type == AstType::AssignExpr && ast.children@.len() >= 2 && ast.children@[0].var_type
                is None ==> r == Err::<(), FatalError>(FatalError::MissingType) && final(self)@ == old(
                self,
            )@,
            ast.ast_type == AstType::AssignExpr && ast.children@.len() >= 2 && ast.children@[0].var_type
                is Some && old(self)@.contains_key(ast.children@[0].val@) ==> r == Err::<
                (),
                FatalError,
            >(FatalError::Redeclared) && final(self)@ == old(self)@,
            ast.ast_type == AstType::AssignExpr && ast.children@.len() >= 2 && ast.children@[0].var_type
                is Some && !old(self)@.contains_key(ast.children@[0].val@) ==> r == Ok::<
                (),
                FatalError,
            >(()) && final(self)@ == old(self)@.insert(
                ast.children@[0].val@,
                final(self)@[ast.children@[0].val@],
            ) && symbol_is(
                final(self)@[ast.children@[0].val@],
                ast.children@[0].val@,
                (ast.children@[0].var_type->0)@,
                ast.children@[1].val@,
                Scope::Global,
            ),
    {
        if ast.ast_type != AstType::AssignExpr {
            return Err(FatalError::InvalidNode);
        }
        if ast.children.len() < 2 {
            return Err(FatalError::MalformedNode);
        }
        let ident = &ast.children[0];
        let value = &ast.children[1];
        let ty = match &ident.var_type {
            Some(t) => t.clone(),
            None => {
                return Err(FatalError::MissingType);
            },
        };
        if self.contains(&ident.val) {
            return Err(FatalError::Redeclared);
        }
        let sym = Symbol {
            name: ident.val.clone(),
            sym_type: ty,
            val: value.val.clone(),
            scope: Scope::Global,
        };
        self.table.push(sym);
        proof {
            lemma_push_keeps_distinct(old(self).table@, self.table@);
            assert(self.table@.drop_last() =~= old(self).table@);
        }
        Ok(())
    }

    /// Registers a for-loop iteration variable: an `Ident` node carrying
    /// its declared-type label. The symbol's value is the variable's own
    /// name; its scope tag is `ForLocal`, but it occupies the same flat
    /// namespace as every other symbol.
    pub fn insert_for_id(&mut self, ast: &Ast) -> (r: Result<(), FatalError>)
        requires
            old(self).wf(),
        ensures
            final(self).wf(),
            ast.ast_type != AstType::Ident ==> r == Err::<(), FatalError>(FatalError::InvalidNode)
                && final(self)@ == old(self)@,
            ast.ast_type == AstType::Ident && old(self)@.contains_key(ast.val@) ==> r == Err::<
                (),
                FatalError,
            >(FatalError::Redeclared) && final(self)@ == old(self)@,
            ast.ast_type == AstType::Ident && !old(self)@.contains_key(ast.val@) && ast.var_type
                is None ==> r == Err::<(), FatalError>(FatalError::MissingType) && final(self)@ == old(
                self,
            )@,
            ast.ast_type == AstType::Ident && !old(self)@.contains_key(ast.val@) && ast.var_type
                is Some ==> r == Ok::<(), FatalError>(()) && final(self)@ == old(self)@.insert(
                ast.val@,
                final(self)@[ast.val@],
            ) && symbol_is(
                final(self)@[ast.val@],
                ast.val@,
                (ast.var_type->0)@,
                ast.val@,
                Scope::ForLocal,
            ),
    {
        if ast.ast_type != AstType::Ident {
            return Err(FatalError::InvalidNode);
        }
        if self.contains(&ast.val) {
            return Err(FatalError::Redeclared);
        }
        let ty = match &ast.var_type {
            Some(t) => t.clone(),
            None => {
                return Err(FatalError::MissingType);
            },
        };
        let sym = Symbol {
            name: ast.val.clone(),
            sym_type: ty,
            val: ast.val.clone(),
            scope: Scope::ForLocal,
        };
        self.table.push(sym);
        proof {
            lemma_push_keeps_distinct(old(self).table@, self.table@);
            assert(self.table@.drop_last() =~= old(self).table@);
        }
        Ok(())
    }

    /// Looks a name up, for generation-time resolution of interpolated
    /// variables. Read-only.
    pub fn get(&self, key: &String) -> (r: Option<&Symbol>)
        ensures
            match r {
                Some(sym) => self@.contains_key(key@) && *sym == self@[key@],
                None => !self@.contains_key(key@),
            },
    {
        let n = self.table.len();
        let mut i: usize = n;
        while i > 0
            invariant
                n == self.table@.len(),
                i <= n,
                forall|k: int| i <= k < n ==> (#[trigger] self.table@[k]).name@ != key@,
            decreases i,
        {
            i = i - 1;
            if self.table[i].name == *key {
                proof {
                    lemma_map_of_get(self.table@, i as int);
                }
                return Some(&self.table[i]);
            }
        }
        proof {
            lemma_map_of_contains(self.table@, key@);
        }
        None
    }
}

/// If no later entry shares entry `i`'s name, the map holds entry `i`.
proof fn lemma_map_of_get(s: Seq<Symbol>, i: int)
    requires
        0 <= i < s.len(),
        forall|k: int| i < k < s.len() ==> (#[trigger] s[k]).name@ != s[i].name@,
    ensures
        map_of(s).contains_key(s[i].name@),
        map_of(s)[s[i].name@] == s[i],
    decreases s.len(),
{
    if i == s.len() - 1 {
    } else {
        assert(s.drop_last()[i] == s[i]);
        lemma_map_of_get(s.drop_last(), i);
    }
}

/// Appending a symbol whose name no earlier entry carries keeps the
/// entries' names pairwise distinct.
proof fn lemma_push_keeps_distinct(pre: Seq<Symbol>, post: Seq<Symbol>)
    requires
        post.len() == pre.len() + 1,
        forall|k: int| 0 <= k < pre.len() ==> post[k] == (#[trigger] pre[k]),
        forall|p: int, q: int| 0 <= p < q < pre.len() ==> (#[trigger] pre[p]).name@ != (
        #[trigger] pre[q]).name@,
        !map_of(pre).contains_key(post.last().name@),
    ensures
        forall|p: int, q: int| 0 <= p < q < post.len() ==> (#[trigger] post[p]).name@ != (
        #[trigger] post[q]).name@,
{
    lemma_map_of_contains(pre, post.last().name@);
    assert forall|p: int, q: int| 0 <= p < q < post.len() implies (#[trigger] post[p]).name@ != (
    #[trigger] post[q]).name@ by {
        assert(post[p] == pre[p]);
        if q == post.len() - 1 {
            assert(!(exists|k: int| 0 <= k < pre.len() && (#[trigger] pre[k]).name@
                == post.last().name@));
            assert(pre[p].name@ != post.last().name@);
        } else {
            assert(post[q] == pre[q]);
            assert(pre[p].name@ != pre[q].name@);
        }
    }
}

/// With pairwise distinct names, the map holds every entry unchanged.
proof fn lemma_map_of_last_wins(s: Seq<Symbol>, i: int)
    requires
        0 <= i < s.len(),
        forall|p: int, q: int| 0 <= p < q < s.len() ==> (#[trigger] s[p]).name@ != (
        #[trigger] s[q]).name@,
    ensures
        map_of(s).contains_key(s[i].name@),
        map_of(s)[s[i].name@] == s[i],
{
    lemma_map_of_get(s, i);
}

} // verus!
