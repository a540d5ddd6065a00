//! The abstract syntax tree built by the parser.

use vstd::prelude::*;

verus! {

/// The kind of a tree node. `Template` is the root kind; `Eof` marks the
/// end of input wherever an element was expected; `Empty` stands for a
/// malformed construct that was still given a place in the tree.
#[derive(Clone, Copy, PartialEq, Eq, Structural, Debug)]
pub enum AstType {
    Template,
    Element,
    ElementName,
    IfExpr,
    ForExpr,
    AssignExpr,
    AttrList,
    Ident,
    Number,
    Contents,
    VariableValue,
    Include,
    Gt,
    Lt,
    GtEquals,
    LtEquals,
    NotEquals,
    EqualsEquals,
    Plus,
    Minus,
    Eof,
    Empty,
}

/// One tree node: a kind tag, a value string whose meaning depends on the
/// kind, an optional declared-type label (used by assignments and for-loop
/// variables), and the ordered, exclusively owned children. Built during
/// the parse and read-only afterwards.
#[derive(PartialEq, Debug)]
pub struct Ast {
    pub ast_type: AstType,
    pub val: String,
    pub var_type: Option<String>,
    pub children: Vec<Box<Ast>>,
}

/// Child number `i` of a node.
pub open spec fn child_of(a: &Ast, i: int) -> Ast {
    *a.children@[i]
}

/// A childless node of the given kind carrying the given text, with no
/// declared-type label.
pub open spec fn is_leaf(a: &Ast, t: AstType, text: Seq<char>) -> bool {
    &&& a.ast_type == t
    &&& a.val@ == text
    &&& a.var_type is None
    &&& a.children@.len() == 0
}

impl Ast {
    /// A node of the given kind with an empty value and no children.
    pub fn new(ast_type: AstType) -> (a: Ast)
        ensures
            is_leaf(&a, ast_type, Seq::<char>::empty()),
    {
        Ast { ast_type, val: String::new(), var_type: None, children: Vec::new() }
    }

    /// A node of the given kind carrying a copy of the given value.
    pub fn new_from_value(ast_type: AstType, val: &String) -> (a: Ast)
        ensures
            is_leaf(&a, ast_type, val@),
    {
        Ast { ast_type, val: val.clone(), var_type: None, children: Vec::new() }
    }
}

} // verus!
