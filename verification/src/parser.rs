//! Recursive-descent syntax analysis.
//!
//! The parser drives a cursor over the token stream that the lexer
//! produced, builds the tree bottom-up rule by rule, registers `let` and
//! for-loop declarations in the symbol table as soon as their value is
//! parsed, and routes recoverable problems to the diagnostics collection
//! so that one pass surfaces as many of them as possible. A structurally
//! impossible declaration is fatal instead: it stops the parse through
//! [`FatalError`].
//!
//! The grammar, informally:
//!
//! ```text
//! Template  := Element*
//! Element   := "if" Expr "{" Element "}" Element
//!            | "for" Ident ":" Type "in" Ident "{" Element "}"
//!            | "let" AssignExpr Element
//!            | Term [AttrList] (Element | Contents) Element
//!            | "{" Element "}"
//!            | "&" Ident
//!            | e -> Eof
//! AttrList  := "(" (Term ":" Term)* ")" "->"
//! Expr      := Op ( CompareOp Op | ":" Type "=" Op )?
//! Op        := Term ( ("+"|"-") Term )*
//! Term      := Ident | Number | "(" Expr ")" | Eof
//! Contents  := (Ident | "%" Ident "%")*      — stops before a word that
//!                                              opens a nested element
//! ```
//!
//! Reaching the end of input wherever an element is expected yields an
//! `Eof` node: a valid terminal marker, distinct from failure. The element
//! that syntactically follows an `if` body, a `let`, or a tag declaration
//! is attached as a trailing child of that construct (continuation
//! chaining); an `Eof` marker is never attached that way.

use vstd::prelude::*;

use crate::ast::{child_of, is_leaf, Ast, AstType};
use crate::diagnostic::{extends, has_error, Diagnostic, ParseDiagnostic, Severity};
use crate::lexer::{is_op, tokenize, tokens_spec};
use crate::symbol_table::{FatalError, SymbolTable};
use crate::token::{Token, TokenModel, TokenType};

verus! {

broadcast use crate::diagnostic::lemma_extends_refl, crate::diagnostic::lemma_extends_trans, crate::diagnostic::lemma_extends_keeps_error, vstd::map_lib::lemma_submap_of_trans, crate::symbol_table::lemma_submap_of_refl, crate::symbol_table::lemma_submap_of_insert, crate::symbol_table::lemma_submap_entry;

/// The token kind found at `p + 1`, or `Eof` past the end: what one token
/// of lookahead shows.
pub open spec fn peek_kind(toks: Seq<TokenModel>, p: int) -> TokenType {
    if p + 1 < toks.len() {
        toks[p + 1].kind
    } else {
        TokenType::Eof
    }
}

/// A token that a one-token term consumes: an identifier not opening an
/// element declaration, or a number.
pub open spec fn simple_term_at(toks: Seq<TokenModel>, p: int) -> bool {
    &&& 0 <= p < toks.len()
    &&& (toks[p].kind == TokenType::Ident && peek_kind(toks, p) != TokenType::LeftParen
        || toks[p].kind == TokenType::Number)
}

/// The node kind a one-token term builds for a token of kind `k`.
pub open spec fn term_ast_kind(k: TokenType) -> AstType {
    if k == TokenType::Ident {
        AstType::Ident
    } else {
        AstType::Number
    }
}

/// The comparison node kind for a comparison token.
pub open spec fn cmp_ast_of(k: TokenType) -> AstType {
    if k == TokenType::Gt {
        AstType::Gt
    } else if k == TokenType::Lt {
        AstType::Lt
    } else if k == TokenType::GtEquals {
        AstType::GtEquals
    } else if k == TokenType::LtEquals {
        AstType::LtEquals
    } else if k == TokenType::NotEquals {
        AstType::NotEquals
    } else {
        AstType::EqualsEquals
    }
}

/// The comparison token kinds.
pub open spec fn is_cmp_kind(k: TokenType) -> bool {
    k == TokenType::Gt || k == TokenType::Lt || k == TokenType::GtEquals || k
        == TokenType::LtEquals || k == TokenType::NotEquals || k == TokenType::EqualsEquals
}

/// A single comparison `Term <op> Term` starting at `p`, followed by a
/// token that neither extends an arithmetic chain nor opens one.
pub open spec fn cmp_expr_at(toks: Seq<TokenModel>, p: int) -> bool {
    &&& simple_term_at(toks, p)
    &&& p + 3 < toks.len()
    &&& is_cmp_kind(toks[p + 1].kind)
    &&& simple_term_at(toks, p + 2)
    &&& toks[p + 3].kind != TokenType::Plus
    &&& toks[p + 3].kind != TokenType::Minus
    &&& !is_cmp_kind(toks[p + 3].kind)
    &&& toks[p + 3].kind != TokenType::Colon
    &&& toks[p + 3].kind != TokenType::Equals
}

/// The node a single comparison parses to: the comparison kind carrying
/// the two term leaves in source order.
pub open spec fn is_cmp_node(a: &Ast, toks: Seq<TokenModel>, p: int) -> bool {
    &&& a.ast_type == cmp_ast_of(toks[p + 1].kind)
    &&& a.children@.len() == 2
    &&& is_leaf(&child_of(a, 0), term_ast_kind(toks[p].kind), toks[p].text)
    &&& is_leaf(&child_of(a, 1), term_ast_kind(toks[p + 2].kind), toks[p + 2].text)
    &&& a.var_type is None
}


/// A declaration tail `name : Type = value` starting at `p`, the value a
/// one-token term not followed by an arithmetic continuation.
pub open spec fn assign_expr_at(toks: Seq<TokenModel>, p: int) -> bool {
    &&& 0 <= p
    &&& p + 5 < toks.len()
    &&& toks[p].kind == TokenType::Ident
    &&& toks[p + 1].kind == TokenType::Colon
    &&& toks[p + 2].kind == TokenType::Ident
    &&& toks[p + 3].kind == TokenType::Equals
    &&& simple_term_at(toks, p + 4)
    &&& toks[p + 5].kind != TokenType::Plus
    &&& toks[p + 5].kind != TokenType::Minus
}

/// The node such a declaration parses to: an `AssignExpr` whose first
/// child is the name carrying the declared-type label and whose second
/// child is the value.
pub open spec fn is_assign_node(a: &Ast, toks: Seq<TokenModel>, p: int) -> bool {
    &&& a.ast_type == AstType::AssignExpr
    &&& a.children@.len() == 2
    &&& child_of(a, 0).ast_type == AstType::Ident
    &&& child_of(a, 0).val@ == toks[p].text
    &&& child_of(a, 0).var_type matches Some(ty) && ty@ == toks[p + 2].text
    &&& child_of(a, 0).children@.len() == 0
    &&& is_leaf(&child_of(a, 1), term_ast_kind(toks[p + 4].kind), toks[p + 4].text)
    &&& a.var_type is None
}


/// An empty attribute list `( ) ->` starting at the `(` at `p`.
pub open spec fn empty_attrs_at(toks: Seq<TokenModel>, p: int) -> bool {
    &&& 0 <= p
    &&& p + 2 < toks.len()
    &&& toks[p].kind == TokenType::LeftParen
    &&& toks[p + 1].kind == TokenType::RightParen
    &&& toks[p + 2].kind == TokenType::Arrow
}

/// A one-pair attribute list `( name : value ) ->` starting at `p`.
pub open spec fn one_pair_attrs_at(toks: Seq<TokenModel>, p: int) -> bool {
    &&& 0 <= p
    &&& p + 5 < toks.len()
    &&& toks[p].kind == TokenType::LeftParen
    &&& toks[p + 1].kind == TokenType::Ident
    &&& toks[p + 2].kind == TokenType::Colon
    &&& toks[p + 3].kind == TokenType::Ident
    &&& toks[p + 4].kind == TokenType::RightParen
    &&& toks[p + 5].kind == TokenType::Arrow
}

/// A single content word at `p`: an identifier that neither opens an
/// element declaration nor is followed by more content.
pub open spec fn single_word_at(toks: Seq<TokenModel>, p: int) -> bool {
    &&& 0 <= p
    &&& p + 1 < toks.len()
    &&& toks[p].kind == TokenType::Ident
    &&& toks[p + 1].kind != TokenType::Ident
    &&& toks[p + 1].kind != TokenType::Percent
    &&& toks[p + 1].kind != TokenType::LeftParen
}


/// The reserved words, decided by string comparison on an `Ident` token.
pub open spec fn is_keyword_text(s: Seq<char>) -> bool {
    s == "if"@ || s == "for"@ || s == "let"@
}

/// Token kinds that cannot begin an element: wherever an element was
/// expected, such a token yields an `Eof` node and consumes nothing.
pub open spec fn element_stuck_at(toks: Seq<TokenModel>, p: int) -> bool {
    &&& toks[p].kind != TokenType::Ident
    &&& toks[p].kind != TokenType::LeftBrace
    &&& toks[p].kind != TokenType::Ampersand
}

/// A complete plain tag declaration `name ( ) -> word` at `p`, followed by
/// a token that neither continues the contents nor begins an element.
pub open spec fn plain_tag_at(toks: Seq<TokenModel>, p: int) -> bool {
    &&& 0 <= p
    &&& p + 5 < toks.len()
    &&& toks[p].kind == TokenType::Ident
    &&& !is_keyword_text(toks[p].text)
    &&& toks[p + 1].kind == TokenType::LeftParen
    &&& toks[p + 2].kind == TokenType::RightParen
    &&& toks[p + 3].kind == TokenType::Arrow
    &&& toks[p + 4].kind == TokenType::Ident
    &&& toks[p + 5].kind != TokenType::Ident
    &&& toks[p + 5].kind != TokenType::Percent
    &&& toks[p + 5].kind != TokenType::LeftParen
    &&& toks[p + 5].kind != TokenType::LeftBrace
    &&& toks[p + 5].kind != TokenType::Ampersand
}

/// The tree such a tag parses to: an `Element` holding the `ElementName`,
/// an empty `AttrList`, and a one-word `Contents`.
pub open spec fn is_plain_tag_node(a: &Ast, toks: Seq<TokenModel>, p: int) -> bool {
    &&& a.ast_type == AstType::Element
    &&& a.val@ == Seq::<char>::empty()
    &&& a.var_type is None
    &&& a.children@.len() == 3
    &&& is_leaf(&child_of(a, 0), AstType::ElementName, toks[p].text)
    &&& child_of(a, 1).ast_type == AstType::AttrList
    &&& child_of(a, 1).children@.len() == 0
    &&& child_of(a, 2).ast_type == AstType::Contents
    &&& child_of(a, 2).children@.len() == 1
    &&& is_leaf(&child_of(&child_of(a, 2), 0), AstType::Ident, toks[p + 4].text)
}

/// A tag whose body is a braced nested tag: `name ( ) -> { inner }` where
/// `inner` is a complete plain tag, followed by a token that begins no
/// element.
pub open spec fn braced_tag_at(toks: Seq<TokenModel>, p: int) -> bool {
    &&& 0 <= p
    &&& p + 11 < toks.len()
    &&& toks[p].kind == TokenType::Ident
    &&& !is_keyword_text(toks[p].text)
    &&& toks[p + 1].kind == TokenType::LeftParen
    &&& toks[p + 2].kind == TokenType::RightParen
    &&& toks[p + 3].kind == TokenType::Arrow
    &&& toks[p + 4].kind == TokenType::LeftBrace
    &&& plain_tag_at(toks, p + 5)
    &&& toks[p + 10].kind == TokenType::RightBrace
    &&& toks[p + 11].kind != TokenType::Ident
    &&& toks[p + 11].kind != TokenType::LeftBrace
    &&& toks[p + 11].kind != TokenType::Ampersand
}

/// The tree such a nested declaration parses to: the outer `Element` whose
/// third child is the inner tag's `Element` itself.
pub open spec fn is_braced_tag_node(a: &Ast, toks: Seq<TokenModel>, p: int) -> bool {
    &&& a.ast_type == AstType::Element
    &&& a.val@ == Seq::<char>::empty()
    &&& a.var_type is None
    &&& a.children@.len() == 3
    &&& is_leaf(&child_of(a, 0), AstType::ElementName, toks[p].text)
    &&& child_of(a, 1).ast_type == AstType::AttrList
    &&& child_of(a, 1).children@.len() == 0
    &&& is_plain_tag_node(&child_of(a, 2), toks, p + 5)
}

/// A complete tag with a one-pair attribute list,
/// `name ( attr : value ) -> word`, followed by a token that neither
/// continues the contents nor begins an element.
pub open spec fn paired_tag_at(toks: Seq<TokenModel>, p: int) -> bool {
    &&& 0 <= p
    &&& p + 8 < toks.len()
    &&& toks[p].kind == TokenType::Ident
    &&& !is_keyword_text(toks[p].text)
    &&& one_pair_attrs_at(toks, p + 1)
    &&& toks[p + 7].kind == TokenType::Ident
    &&& toks[p + 8].kind != TokenType::Ident
    &&& toks[p + 8].kind != TokenType::Percent
    &&& toks[p + 8].kind != TokenType::LeftParen
    &&& toks[p + 8].kind != TokenType::LeftBrace
    &&& toks[p + 8].kind != TokenType::Ampersand
}

/// The tree such a tag parses to: the `ElementName`, the `AttrList`
/// holding the attribute name and its value in source order, and the
/// one-word `Contents`.
pub open spec fn is_paired_tag_node(a: &Ast, toks: Seq<TokenModel>, p: int) -> bool {
    &&& a.ast_type == AstType::Element
    &&& a.val@ == Seq::<char>::empty()
    &&& a.var_type is None
    &&& a.children@.len() == 3
    &&& is_leaf(&child_of(a, 0), AstType::ElementName, toks[p].text)
    &&& child_of(a, 1).ast_type == AstType::AttrList
    &&& child_of(a, 1).children@.len() == 2
    &&& is_leaf(&child_of(&child_of(a, 1), 0), AstType::Ident, toks[p + 2].text)
    &&& is_leaf(&child_of(&child_of(a, 1), 1), AstType::Ident, toks[p + 4].text)
    &&& child_of(a, 2).ast_type == AstType::Contents
    &&& child_of(a, 2).children@.len() == 1
    &&& is_leaf(&child_of(&child_of(a, 2), 0), AstType::Ident, toks[p + 7].text)
}

/// A file inclusion `& name` at `p`.
pub open spec fn include_elem_at(toks: Seq<TokenModel>, p: int) -> bool {
    &&& 0 <= p
    &&& p + 2 < toks.len()
    &&& toks[p].kind == TokenType::Ampersand
    &&& toks[p + 1].kind == TokenType::Ident
}

/// A tag whose whole contents is one `%name%` interpolation,
/// `name ( ) -> % var %`.
pub open spec fn var_tag_at(toks: Seq<TokenModel>, p: int) -> bool {
    &&& 0 <= p
    &&& p + 7 < toks.len()
    &&& toks[p].kind == TokenType::Ident
    &&& !is_keyword_text(toks[p].text)
    &&& toks[p + 1].kind == TokenType::LeftParen
    &&& toks[p + 2].kind == TokenType::RightParen
    &&& toks[p + 3].kind == TokenType::Arrow
    &&& toks[p + 4].kind == TokenType::Percent
    &&& toks[p + 5].kind == TokenType::Ident
    &&& toks[p + 6].kind == TokenType::Percent
    &&& toks[p + 7].kind != TokenType::Ident
    &&& toks[p + 7].kind != TokenType::LeftBrace
    &&& toks[p + 7].kind != TokenType::Ampersand
}

/// The tree such a tag parses to: the `VariableValue` leaf stands directly
/// as the element's third child.
pub open spec fn is_var_tag_node(a: &Ast, toks: Seq<TokenModel>, p: int) -> bool {
    &&& a.ast_type == AstType::Element
    &&& a.val@ == Seq::<char>::empty()
    &&& a.var_type is None
    &&& a.children@.len() == 3
    &&& is_leaf(&child_of(a, 0), AstType::ElementName, toks[p].text)
    &&& child_of(a, 1).ast_type == AstType::AttrList
    &&& child_of(a, 1).children@.len() == 0
    &&& is_leaf(&child_of(a, 2), AstType::VariableValue, toks[p + 5].text)
}

/// A tag whose whole contents is one file inclusion, `name ( ) -> & file`.
pub open spec fn include_tag_at(toks: Seq<TokenModel>, p: int) -> bool {
    &&& 0 <= p
    &&& p + 6 < toks.len()
    &&& toks[p].kind == TokenType::Ident
    &&& !is_keyword_text(toks[p].text)
    &&& toks[p + 1].kind == TokenType::LeftParen
    &&& toks[p + 2].kind == TokenType::RightParen
    &&& toks[p + 3].kind == TokenType::Arrow
    &&& toks[p + 4].kind == TokenType::Ampersand
    &&& toks[p + 5].kind == TokenType::Ident
    &&& toks[p + 6].kind != TokenType::Ident
    &&& toks[p + 6].kind != TokenType::LeftBrace
    &&& toks[p + 6].kind != TokenType::Ampersand
}

/// The tree such a tag parses to: the `Include` leaf stands exactly where
/// it occurs, as the element's third child.
pub open spec fn is_include_tag_node(a: &Ast, toks: Seq<TokenModel>, p: int) -> bool {
    &&& a.ast_type == AstType::Element
    &&& a.val@ == Seq::<char>::empty()
    &&& a.var_type is None
    &&& a.children@.len() == 3
    &&& is_leaf(&child_of(a, 0), AstType::ElementName, toks[p].text)
    &&& child_of(a, 1).ast_type == AstType::AttrList
    &&& child_of(a, 1).children@.len() == 0
    &&& is_leaf(&child_of(a, 2), AstType::Include, toks[p + 5].text)
}

/// An `if` whose test is a single well-formed comparison and whose body
/// opens with `{`.
pub open spec fn if_simple_at(toks: Seq<TokenModel>, p: int) -> bool {
    &&& 0 <= p < toks.len()
    &&& toks[p].kind == TokenType::Ident
    &&& toks[p].text == "if"@
    &&& cmp_expr_at(toks, p + 1)
    &&& toks[p + 4].kind == TokenType::LeftBrace
}

/// A complete `if cmp { } word` at the end of the input.
pub open spec fn if_closed_at(toks: Seq<TokenModel>, p: int) -> bool {
    &&& if_simple_at(toks, p)
    &&& p + 7 < toks.len()
    &&& toks[p + 5].kind == TokenType::RightBrace
    &&& toks[p + 6].kind == TokenType::Ident
    &&& !is_keyword_text(toks[p + 6].text)
    &&& toks[p + 7].kind == TokenType::Eof
}

/// The tree such an `if` parses to: the comparison, the empty body's `Eof`
/// marker, and the element that syntactically follows the closing brace,
/// chained as the third child.
pub open spec fn is_closed_if_node(a: &Ast, toks: Seq<TokenModel>, p: int) -> bool {
    &&& a.ast_type == AstType::IfExpr
    &&& a.children@.len() == 3
    &&& is_cmp_node(&child_of(a, 0), toks, p + 1)
    &&& child_of(a, 1).ast_type == AstType::Eof
    &&& child_of(a, 2).ast_type == AstType::Element
    &&& child_of(a, 2).children@.len() == 2
    &&& is_leaf(&child_of(&child_of(a, 2), 0), AstType::Ident, toks[p + 6].text)
    &&& child_of(&child_of(a, 2), 1).ast_type == AstType::Eof
}

/// An `if` with a well-formed test whose brace is never closed: the
/// input ends right after the opening brace.
pub open spec fn if_unclosed_at(toks: Seq<TokenModel>, p: int) -> bool {
    &&& if_simple_at(toks, p)
    &&& p + 5 < toks.len()
    &&& toks[p + 5].kind == TokenType::Eof
}

/// Malformed input the parser is guaranteed to report with at least one
/// error while carrying on: an unclosed `if`, a tag with an arrow but no
/// attribute list before it, an attribute pair missing its colon, and an
/// attribute pair missing the closing paren.
pub open spec fn reported_error_at(toks: Seq<TokenModel>, p: int) -> bool {
    ||| if_unclosed_at(toks, p)
    ||| ({
        &&& 0 <= p
        &&& p + 2 < toks.len()
        &&& toks[p].kind == TokenType::Ident
        &&& !is_keyword_text(toks[p].text)
        &&& toks[p + 1].kind == TokenType::Arrow
        &&& toks[p + 2].kind != TokenType::LeftParen
    })
    ||| ({
        &&& 0 <= p
        &&& p + 3 < toks.len()
        &&& toks[p].kind == TokenType::Ident
        &&& !is_keyword_text(toks[p].text)
        &&& toks[p + 1].kind == TokenType::LeftParen
        &&& toks[p + 2].kind == TokenType::Ident
        &&& toks[p + 3].kind != TokenType::Colon
    })
    ||| ({
        &&& 0 <= p
        &&& p + 5 < toks.len()
        &&& toks[p].kind == TokenType::Ident
        &&& !is_keyword_text(toks[p].text)
        &&& toks[p + 1].kind == TokenType::LeftParen
        &&& toks[p + 2].kind == TokenType::Ident
        &&& toks[p + 3].kind == TokenType::Colon
        &&& toks[p + 4].kind == TokenType::Ident
        &&& toks[p + 5].kind == TokenType::Arrow
    })
}

/// A `let` declaration `let name : Type = value` at `p`, whatever the
/// template goes on with afterwards.
pub open spec fn let_decl_at(toks: Seq<TokenModel>, p: int) -> bool {
    &&& 0 <= p < toks.len()
    &&& toks[p].kind == TokenType::Ident
    &&& toks[p].text == "let"@
    &&& assign_expr_at(toks, p + 1)
}

/// A `let` declaration `let name : Type = value` at `p`, followed by a
/// token that begins no element.
pub open spec fn let_elem_at(toks: Seq<TokenModel>, p: int) -> bool {
    &&& 0 <= p < toks.len()
    &&& toks[p].kind == TokenType::Ident
    &&& toks[p].text == "let"@
    &&& assign_expr_at(toks, p + 1)
    &&& toks[p + 6].kind != TokenType::Ident
    &&& toks[p + 6].kind != TokenType::LeftBrace
    &&& toks[p + 6].kind != TokenType::Ampersand
}

/// One whole element that ends exactly at the end of the input: one of the
/// completely pinned-down shapes above.
pub open spec fn closed_element_at(toks: Seq<TokenModel>, p: int) -> bool {
    ||| (plain_tag_at(toks, p) && toks[p + 5].kind == TokenType::Eof)
    ||| (paired_tag_at(toks, p) && toks[p + 8].kind == TokenType::Eof)
    ||| (var_tag_at(toks, p) && toks[p + 7].kind == TokenType::Eof)
    ||| (include_tag_at(toks, p) && toks[p + 6].kind == TokenType::Eof)
    ||| (braced_tag_at(toks, p) && toks[p + 11].kind == TokenType::Eof)
    ||| (include_elem_at(toks, p) && toks[p + 2].kind == TokenType::Eof)
    ||| if_closed_at(toks, p)
}

/// Where such an element's parse ends: on the final `Eof` token.
pub open spec fn closed_element_end(toks: Seq<TokenModel>, p: int) -> int {
    if plain_tag_at(toks, p) {
        p + 5
    } else if paired_tag_at(toks, p) {
        p + 8
    } else if var_tag_at(toks, p) {
        p + 7
    } else if include_tag_at(toks, p) {
        p + 6
    } else if braced_tag_at(toks, p) {
        p + 11
    } else if include_elem_at(toks, p) {
        p + 2
    } else {
        p + 7
    }
}

/// The tree such an element parses to.
pub open spec fn is_closed_element_node(a: &Ast, toks: Seq<TokenModel>, p: int) -> bool {
    if plain_tag_at(toks, p) {
        is_plain_tag_node(a, toks, p)
    } else if paired_tag_at(toks, p) {
        is_paired_tag_node(a, toks, p)
    } else if var_tag_at(toks, p) {
        is_var_tag_node(a, toks, p)
    } else if include_tag_at(toks, p) {
        is_include_tag_node(a, toks, p)
    } else if braced_tag_at(toks, p) {
        is_braced_tag_node(a, toks, p)
    } else if include_elem_at(toks, p) {
        is_leaf(a, AstType::Include, toks[p + 1].text)
    } else {
        is_closed_if_node(a, toks, p)
    }
}


/// A two-term arithmetic chain `a + b` or `a - b` at `p`, not followed by
/// a further step.
pub open spec fn two_term_chain_at(toks: Seq<TokenModel>, p: int) -> bool {
    &&& simple_term_at(toks, p)
    &&& p + 3 < toks.len()
    &&& (toks[p + 1].kind == TokenType::Plus || toks[p + 1].kind == TokenType::Minus)
    &&& simple_term_at(toks, p + 2)
    &&& toks[p + 3].kind != TokenType::Plus
    &&& toks[p + 3].kind != TokenType::Minus
}

/// A lone term at `p` that no operator, comparison or declaration tail
/// follows: an expression that is just that term.
pub open spec fn plain_expr_at(toks: Seq<TokenModel>, p: int) -> bool {
    &&& simple_term_at(toks, p)
    &&& p + 1 < toks.len()
    &&& toks[p + 1].kind != TokenType::Plus
    &&& toks[p + 1].kind != TokenType::Minus
    &&& !is_cmp_kind(toks[p + 1].kind)
    &&& toks[p + 1].kind != TokenType::Colon
    &&& toks[p + 1].kind != TokenType::Equals
}

/// A complete `for name : Type in collection { }` loop at `p`.
pub open spec fn for_closed_at(toks: Seq<TokenModel>, p: int) -> bool {
    &&& 0 <= p
    &&& p + 8 < toks.len()
    &&& toks[p].kind == TokenType::Ident
    &&& toks[p].text == "for"@
    &&& toks[p + 1].kind == TokenType::Ident
    &&& toks[p + 2].kind == TokenType::Colon
    &&& toks[p + 3].kind == TokenType::Ident
    &&& toks[p + 4].kind == TokenType::Ident
    &&& toks[p + 4].text == "in"@
    &&& toks[p + 5].kind == TokenType::Ident
    &&& toks[p + 6].kind == TokenType::LeftBrace
    &&& toks[p + 7].kind == TokenType::RightBrace
}

/// The tree such a loop parses to: the typed iteration variable, the
/// collection, and the empty body's end marker.
pub open spec fn is_closed_for_node(a: &Ast, toks: Seq<TokenModel>, p: int) -> bool {
    &&& a.ast_type == AstType::ForExpr
    &&& a.children@.len() == 3
    &&& child_of(a, 0).ast_type == AstType::Ident
    &&& child_of(a, 0).val@ == toks[p + 1].text
    &&& child_of(a, 0).var_type matches Some(ty) && ty@ == toks[p + 3].text
    &&& child_of(a, 0).children@.len() == 0
    &&& is_leaf(&child_of(a, 1), AstType::Ident, toks[p + 5].text)
    &&& child_of(a, 2).ast_type == AstType::Eof
}


/// `n` content items follow position `p`: each item is a plain word that
/// opens no element declaration, or a well-formed `%name%` interpolation.
pub open spec fn contents_items_at(toks: Seq<TokenModel>, p: int, n: nat) -> bool
    decreases n,
{
    if n == 0 {
        0 <= p < toks.len()
    } else {
        ||| ({
            &&& 0 <= p
            &&& p + 1 < toks.len()
            &&& toks[p].kind == TokenType::Ident
            &&& peek_kind(toks, p) != TokenType::LeftParen
            &&& contents_items_at(toks, p + 1, (n - 1) as nat)
        })
        ||| ({
            &&& 0 <= p
            &&& p + 3 < toks.len()
            &&& toks[p].kind == TokenType::Percent
            &&& toks[p + 1].kind == TokenType::Ident
            &&& toks[p + 2].kind == TokenType::Percent
            &&& peek_kind(toks, p + 2) != TokenType::LeftParen
            &&& contents_items_at(toks, p + 3, (n - 1) as nat)
        })
    }
}

/// Where the scan stands after those `n` items.
pub open spec fn contents_items_end(toks: Seq<TokenModel>, p: int, n: nat) -> int
    decreases n,
{
    if n == 0 {
        p
    } else if toks[p].kind == TokenType::Ident {
        contents_items_end(toks, p + 1, (n - 1) as nat)
    } else {
        contents_items_end(toks, p + 3, (n - 1) as nat)
    }
}

/// The scan stops here: the token is no further word or interpolation, or
/// it is a word that opens a nested element.
pub open spec fn contents_stop_at(toks: Seq<TokenModel>, p: int) -> bool {
    ||| (toks[p].kind != TokenType::Ident && toks[p].kind != TokenType::Percent)
    ||| peek_kind(toks, p) == TokenType::LeftParen
}

/// The children a run of `n` items parses to, in source order: `Ident(w)`
/// for each plain word and `VariableValue(name)` for each `%name%`.
pub open spec fn contents_children_match(
    children: Seq<Box<Ast>>,
    toks: Seq<TokenModel>,
    p: int,
    n: nat,
) -> bool
    decreases n,
{
    if n == 0 {
        children.len() == 0
    } else if toks[p].kind == TokenType::Ident {
        &&& children.len() >= 1
        &&& is_leaf(&*children[0], AstType::Ident, toks[p].text)
        &&& contents_children_match(children.skip(1), toks, p + 1, (n - 1) as nat)
    } else {
        &&& children.len() >= 1
        &&& is_leaf(&*children[0], AstType::VariableValue, toks[p + 1].text)
        &&& contents_children_match(children.skip(1), toks, p + 3, (n - 1) as nat)
    }
}


/// A word or interpolation item stands at `q`, well formed and in bounds.
pub open spec fn contents_item_head(toks: Seq<TokenModel>, q: int) -> bool {
    ||| (q + 1 < toks.len() && toks[q].kind == TokenType::Ident && peek_kind(toks, q)
        != TokenType::LeftParen)
    ||| (q + 3 < toks.len() && toks[q].kind == TokenType::Percent && toks[q + 1].kind
        == TokenType::Ident && toks[q + 2].kind == TokenType::Percent && peek_kind(toks, q + 2)
        != TokenType::LeftParen)
}

/// Within a run that ends properly, the scan never stands mid-run on a
/// malformed item: after `d` items of such a run, either the run stopped
/// or a further well-formed item follows.
proof fn lemma_contents_items_split(toks: Seq<TokenModel>, p: int, n: nat, d: nat)
    requires
        contents_items_at(toks, p, n),
        contents_stop_at(toks, contents_items_end(toks, p, n)),
        contents_items_at(toks, p, d),
        !contents_stop_at(toks, contents_items_end(toks, p, d)),
    ensures
        contents_item_head(toks, contents_items_end(toks, p, d)),
    decreases d,
{
    if d == 0 {
        assert(n != 0);
    } else {
        assert(n != 0);
        if toks[p].kind == TokenType::Ident {
            lemma_contents_items_split(toks, p + 1, (n - 1) as nat, (d - 1) as nat);
        } else {
            lemma_contents_items_split(toks, p + 3, (n - 1) as nat, (d - 1) as nat);
        }
    }
}

/// A properly stopped run's length is determined by the tokens alone.
proof fn lemma_contents_run_unique(toks: Seq<TokenModel>, p: int, n: nat, m: nat)
    requires
        contents_items_at(toks, p, n),
        contents_stop_at(toks, contents_items_end(toks, p, n)),
        contents_items_at(toks, p, m),
        contents_stop_at(toks, contents_items_end(toks, p, m)),
    ensures
        n == m,
    decreases n,
{
    if n != 0 && m != 0 {
        if toks[p].kind == TokenType::Ident {
            lemma_contents_run_unique(toks, p + 1, (n - 1) as nat, (m - 1) as nat);
        } else {
            lemma_contents_run_unique(toks, p + 3, (n - 1) as nat, (m - 1) as nat);
        }
    }
}

/// One more word extends a run of items by one.
proof fn lemma_contents_items_snoc_word(toks: Seq<TokenModel>, p: int, d: nat)
    requires
        contents_items_at(toks, p, d),
        ({
            let q = contents_items_end(toks, p, d);
            q + 1 < toks.len() && toks[q].kind == TokenType::Ident && peek_kind(toks, q)
                != TokenType::LeftParen
        }),
    ensures
        contents_items_at(toks, p, d + 1),
        contents_items_end(toks, p, d + 1) == contents_items_end(toks, p, d) + 1,
    decreases d,
{
    if d == 0 {
        assert(contents_items_at(toks, p + 1, 0));
        assert(contents_items_end(toks, p + 1, 0) == p + 1);
        assert(contents_items_at(toks, p, 1));
    } else {
        if toks[p].kind == TokenType::Ident {
            lemma_contents_items_snoc_word(toks, p + 1, (d - 1) as nat);
            assert(contents_items_at(toks, p + 1, ((d - 1) as nat) + 1));
            assert(contents_items_at(toks, p, d + 1));
        } else {
            lemma_contents_items_snoc_word(toks, p + 3, (d - 1) as nat);
            assert(contents_items_at(toks, p + 3, ((d - 1) as nat) + 1));
            assert(contents_items_at(toks, p, d + 1));
        }
    }
}

/// One more interpolation extends a run of items by one.
proof fn lemma_contents_items_snoc_var(toks: Seq<TokenModel>, p: int, d: nat)
    requires
        contents_items_at(toks, p, d),
        ({
            let q = contents_items_end(toks, p, d);
            q + 3 < toks.len() && toks[q].kind == TokenType::Percent && toks[q + 1].kind
                == TokenType::Ident && toks[q + 2].kind == TokenType::Percent && peek_kind(
                toks,
                q + 2,
            ) != TokenType::LeftParen
        }),
    ensures
        contents_items_at(toks, p, d + 1),
        contents_items_end(toks, p, d + 1) == contents_items_end(toks, p, d) + 3,
    decreases d,
{
    if d == 0 {
        assert(contents_items_at(toks, p + 3, 0));
        assert(contents_items_end(toks, p + 3, 0) == p + 3);
        assert(contents_items_at(toks, p, 1));
    } else {
        if toks[p].kind == TokenType::Ident {
            lemma_contents_items_snoc_var(toks, p + 1, (d - 1) as nat);
            assert(contents_items_at(toks, p + 1, ((d - 1) as nat) + 1));
            assert(contents_items_at(toks, p, d + 1));
        } else {
            lemma_contents_items_snoc_var(toks, p + 3, (d - 1) as nat);
            assert(contents_items_at(toks, p + 3, ((d - 1) as nat) + 1));
            assert(contents_items_at(toks, p, d + 1));
        }
    }
}

/// Appending the matching leaf keeps the children matching, one item
/// longer.
proof fn lemma_contents_match_snoc(
    children: Seq<Box<Ast>>,
    x: Box<Ast>,
    toks: Seq<TokenModel>,
    p: int,
    d: nat,
)
    requires
        contents_items_at(toks, p, d),
        contents_children_match(children, toks, p, d),
        ({
            let q = contents_items_end(toks, p, d);
            if toks[q].kind == TokenType::Ident {
                is_leaf(&*x, AstType::Ident, toks[q].text)
            } else {
                is_leaf(&*x, AstType::VariableValue, toks[q + 1].text)
            }
        }),
    ensures
        contents_children_match(children.push(x), toks, p, d + 1),
    decreases d,
{
    if d == 0 {
        assert(contents_items_end(toks, p, 0) == p);
        assert(children.push(x)[0] == x);
        assert(children.push(x).skip(1) =~= Seq::<Box<Ast>>::empty());
        assert(contents_children_match(children.push(x).skip(1), toks, p + 1, 0));
        assert(contents_children_match(children.push(x).skip(1), toks, p + 3, 0));
        assert(contents_children_match(children.push(x), toks, p, 1));
    } else {
        assert(children.push(x).skip(1) =~= children.skip(1).push(x));
        assert(children.push(x)[0] == children[0]);
        if toks[p].kind == TokenType::Ident {
            assert(contents_items_end(toks, p + 1, (d - 1) as nat) == contents_items_end(
                toks,
                p,
                d,
            ));
            lemma_contents_match_snoc(children.skip(1), x, toks, p + 1, (d - 1) as nat);
            assert(contents_children_match(
                children.push(x).skip(1),
                toks,
                p + 1,
                ((d - 1) as nat) + 1,
            ));
            assert(contents_children_match(children.push(x), toks, p, d + 1));
        } else {
            assert(contents_items_end(toks, p + 3, (d - 1) as nat) == contents_items_end(
                toks,
                p,
                d,
            ));
            lemma_contents_match_snoc(children.skip(1), x, toks, p + 3, (d - 1) as nat);
            assert(contents_children_match(
                children.push(x).skip(1),
                toks,
                p + 3,
                ((d - 1) as nat) + 1,
            ));
            assert(contents_children_match(children.push(x), toks, p, d + 1));
        }
    }
}


/// `n` attribute pairs `key : value` with identifier keys and values
/// stand at `p`, followed by the closing paren.
pub open spec fn attr_pairs_at(toks: Seq<TokenModel>, p: int, n: nat) -> bool
    decreases n,
{
    if n == 0 {
        0 <= p < toks.len() && toks[p].kind == TokenType::RightParen
    } else {
        &&& 0 <= p
        &&& p + 2 < toks.len()
        &&& toks[p].kind == TokenType::Ident
        &&& toks[p + 1].kind == TokenType::Colon
        &&& toks[p + 2].kind == TokenType::Ident
        &&& peek_kind(toks, p + 2) != TokenType::LeftParen
        &&& attr_pairs_at(toks, p + 3, (n - 1) as nat)
    }
}

/// `d` attribute pairs consumed so far, the closing paren not yet seen.
pub open spec fn attr_pairs_taken(toks: Seq<TokenModel>, p: int, d: nat) -> bool
    decreases d,
{
    if d == 0 {
        0 <= p
    } else {
        &&& 0 <= p
        &&& p + 2 < toks.len()
        &&& toks[p].kind == TokenType::Ident
        &&& toks[p + 1].kind == TokenType::Colon
        &&& toks[p + 2].kind == TokenType::Ident
        &&& peek_kind(toks, p + 2) != TokenType::LeftParen
        &&& attr_pairs_taken(toks, p + 3, (d - 1) as nat)
    }
}

/// The children an attribute list of `n` pairs parses to: each key then
/// its value, as `Ident` leaves, in source order.
pub open spec fn attr_children_match(
    children: Seq<Box<Ast>>,
    toks: Seq<TokenModel>,
    p: int,
    n: nat,
) -> bool
    decreases n,
{
    if n == 0 {
        children.len() == 0
    } else {
        &&& children.len() >= 2
        &&& is_leaf(&*children[0], AstType::Ident, toks[p].text)
        &&& is_leaf(&*children[1], AstType::Ident, toks[p + 2].text)
        &&& attr_children_match(children.skip(2), toks, p + 3, (n - 1) as nat)
    }
}

/// After `d` consumed pairs of an `n`-pair list: either another pair
/// follows, or `d` is `n` and the closing paren is under the cursor.
proof fn lemma_attr_pairs_status(toks: Seq<TokenModel>, p: int, n: nat, d: nat)
    requires
        attr_pairs_at(toks, p, n),
        attr_pairs_taken(toks, p, d),
    ensures
        d <= n,
        d < n ==> attr_pairs_at(toks, p + 3 * d, (n - d) as nat) && toks[p + 3 * d].kind
            == TokenType::Ident,
        d == n ==> toks[p + 3 * d].kind == TokenType::RightParen,
    decreases d,
{
    if d == 0 {
        if n == 0 {
        } else {
            assert(attr_pairs_at(toks, p, n));
        }
    } else {
        assert(n != 0);
        lemma_attr_pairs_status(toks, p + 3, (n - 1) as nat, (d - 1) as nat);
    }
}

/// One more pair extends the consumed prefix by one.
proof fn lemma_attr_taken_snoc(toks: Seq<TokenModel>, p: int, d: nat)
    requires
        attr_pairs_taken(toks, p, d),
        ({
            let q = p + 3 * d;
            &&& q + 2 < toks.len()
            &&& toks[q].kind == TokenType::Ident
            &&& toks[q + 1].kind == TokenType::Colon
            &&& toks[q + 2].kind == TokenType::Ident
            &&& peek_kind(toks, q + 2) != TokenType::LeftParen
        }),
    ensures
        attr_pairs_taken(toks, p, d + 1),
    decreases d,
{
    if d == 0 {
        assert(attr_pairs_taken(toks, p + 3, 0));
        assert(attr_pairs_taken(toks, p, 1));
    } else {
        lemma_attr_taken_snoc(toks, p + 3, (d - 1) as nat);
        assert(attr_pairs_taken(toks, p + 3, ((d - 1) as nat) + 1));
        assert(attr_pairs_taken(toks, p, d + 1));
    }
}

/// Appending the key and value leaves keeps the children matching, one
/// pair longer.
proof fn lemma_attr_match_snoc(
    children: Seq<Box<Ast>>,
    key: Box<Ast>,
    value: Box<Ast>,
    toks: Seq<TokenModel>,
    p: int,
    d: nat,
)
    requires
        attr_children_match(children, toks, p, d),
        is_leaf(&*key, AstType::Ident, toks[p + 3 * d].text),
        is_leaf(&*value, AstType::Ident, toks[p + 3 * d + 2].text),
    ensures
        attr_children_match(children.push(key).push(value), toks, p, d + 1),
    decreases d,
{
    let two = children.push(key).push(value);
    if d == 0 {
        assert(two[0] == key);
        assert(two[1] == value);
        assert(two.skip(2) =~= Seq::<Box<Ast>>::empty());
        assert(attr_children_match(two.skip(2), toks, p + 3, 0));
        assert(attr_children_match(two, toks, p, 1));
    } else {
        assert(two.skip(2) =~= children.skip(2).push(key).push(value));
        assert(two[0] == children[0]);
        assert(two[1] == children[1]);
        lemma_attr_match_snoc(children.skip(2), key, value, toks, p + 3, (d - 1) as nat);
        assert(attr_children_match(two.skip(2), toks, p + 3, ((d - 1) as nat) + 1));
        assert(attr_children_match(two, toks, p, d + 1));
    }
}


/// `k` arithmetic steps stand at `q`: `+` or `-`, then a one-token term,
/// `k` times, followed by a token that extends no chain.
pub open spec fn op_steps_at(toks: Seq<TokenModel>, q: int, k: nat) -> bool
    decreases k,
{
    if k == 0 {
        0 <= q < toks.len() && toks[q].kind != TokenType::Plus && toks[q].kind != TokenType::Minus
    } else {
        &&& 0 <= q
        &&& q + 1 < toks.len()
        &&& (toks[q].kind == TokenType::Plus || toks[q].kind == TokenType::Minus)
        &&& simple_term_at(toks, q + 1)
        &&& op_steps_at(toks, q + 2, (k - 1) as nat)
    }
}

/// `d` arithmetic steps consumed so far.
pub open spec fn op_steps_taken(toks: Seq<TokenModel>, q: int, d: nat) -> bool
    decreases d,
{
    if d == 0 {
        0 <= q
    } else {
        &&& q + 1 < toks.len()
        &&& (toks[q].kind == TokenType::Plus || toks[q].kind == TokenType::Minus)
        &&& simple_term_at(toks, q + 1)
        &&& op_steps_taken(toks, q + 2, (d - 1) as nat)
    }
}

/// The tree a chain of `k` steps over the term at `p` parses to:
/// left-associative, so the node for `k` steps carries the node for the
/// first `k - 1` as its left child and the last term as its right.
pub open spec fn is_op_chain_node(a: &Ast, toks: Seq<TokenModel>, p: int, k: nat) -> bool
    decreases k,
{
    if k == 0 {
        is_leaf(a, term_ast_kind(toks[p].kind), toks[p].text)
    } else {
        &&& a.ast_type == (if toks[p + 2 * k - 1].kind == TokenType::Plus {
            AstType::Plus
        } else {
            AstType::Minus
        })
        &&& a.val@ == Seq::<char>::empty()
        &&& a.var_type is None
        &&& a.children@.len() == 2
        &&& is_op_chain_node(&child_of(a, 0), toks, p, (k - 1) as nat)
        &&& is_leaf(&child_of(a, 1), term_ast_kind(toks[p + 2 * k].kind), toks[p + 2 * k].text)
    }
}

/// After `d` consumed steps of a `k`-step chain: either another step
/// follows, or `d` is `k` and no operator is under the cursor.
proof fn lemma_op_steps_status(toks: Seq<TokenModel>, q: int, k: nat, d: nat)
    requires
        op_steps_at(toks, q, k),
        op_steps_taken(toks, q, d),
    ensures
        d <= k,
        d < k ==> op_steps_at(toks, q + 2 * d, (k - d) as nat) && (toks[q + 2 * d].kind
            == TokenType::Plus || toks[q + 2 * d].kind == TokenType::Minus),
        d == k ==> toks[q + 2 * d].kind != TokenType::Plus && toks[q + 2 * d].kind
            != TokenType::Minus,
    decreases d,
{
    if d != 0 {
        assert(k != 0);
        lemma_op_steps_status(toks, q + 2, (k - 1) as nat, (d - 1) as nat);
    }
}

/// One more step extends the consumed prefix by one.
proof fn lemma_op_taken_snoc(toks: Seq<TokenModel>, q: int, d: nat)
    requires
        op_steps_taken(toks, q, d),
        ({
            let w = q + 2 * d;
            &&& w + 1 < toks.len()
            &&& (toks[w].kind == TokenType::Plus || toks[w].kind == TokenType::Minus)
            &&& simple_term_at(toks, w + 1)
        }),
    ensures
        op_steps_taken(toks, q, d + 1),
    decreases d,
{
    if d == 0 {
        assert(op_steps_taken(toks, q + 2, 0));
        assert(op_steps_taken(toks, q, 1));
    } else {
        lemma_op_taken_snoc(toks, q + 2, (d - 1) as nat);
        assert(op_steps_taken(toks, q + 2, ((d - 1) as nat) + 1));
        assert(op_steps_taken(toks, q, d + 1));
    }
}

/// The syntax analyser: a cursor over the token stream, the symbol table
/// it fills, the tree root it fills, and the diagnostics it records.
pub struct Parser {
    /// The token stream under analysis, as the lexer produced it.
    pub tokens: Vec<Token>,
    /// The cursor: index of the current token.
    pub pos: usize,
    /// The symbol table holding the declarations met so far.
    pub symbol_table: SymbolTable,
    /// The root of the tree being built; `Template`-kinded.
    pub root: Ast,
    /// The recoverable problems met so far, in discovery order.
    pub diagnostic: ParseDiagnostic,
}

impl Parser {
    /// The token stream as token models.
    pub open spec fn toks(&self) -> Seq<TokenModel> {
        self.tokens@.map_values(|t: Token| t@)
    }

    /// The cursor: how many tokens have been consumed.
    pub open spec fn at(&self) -> int {
        self.pos as int
    }

    /// The token under the cursor.
    pub open spec fn cur(&self) -> TokenModel {
        self.toks()[self.at()]
    }

    /// The parser's internal invariant: the cursor is on a token, the
    /// stream ends in its only `Eof`, and the symbol table is sound.
    pub open spec fn wf(&self) -> bool {
        &&& self.toks().len() >= 1
        &&& 0 <= self.at() < self.toks().len()
        &&& self.toks()[self.toks().len() - 1].kind == TokenType::Eof
        &&& forall|i: int| 0 <= i < self.toks().len() - 1 ==> (#[trigger] self.toks()[i]).kind
            != TokenType::Eof
        &&& self.symbol_table.wf()
    }

    /// What every parsing step keeps: the stream is untouched, the cursor
    /// never moves backwards, recorded messages stay recorded, declared
    /// symbols stay declared, and the root is not touched (only
    /// [`Parser::parse`] fills it).
    pub open spec fn steady(pre: &Parser, post: &Parser) -> bool {
        &&& post.wf()
        &&& post.toks() == pre.toks()
        &&& pre.at() <= post.at()
        &&& extends(pre.diagnostic@, post.diagnostic@)
        &&& pre.symbol_table@.submap_of(post.symbol_table@)
        &&& post.symbol_table.wf()
        &&& post.root == pre.root
    }

    /// The step additionally left the diagnostics and the symbol table
    /// exactly as they were.
    pub open spec fn quiet(pre: &Parser, post: &Parser) -> bool {
        &&& post.diagnostic@ == pre.diagnostic@
        &&& post.symbol_table == pre.symbol_table
    }

    /// Creates a parser for the given template text, over the given,
    /// possibly pre-seeded, symbol table. The text is scanned completely
    /// up front: the token stream is exactly [`tokens_spec`] of the text,
    /// so everything the parse builds is a function of the text and the
    /// table alone.
    pub fn new(template: String, symbol_table: SymbolTable) -> (p: Parser)
        requires
            symbol_table.wf(),
        ensures
            p.wf(),
            p.toks() == tokens_spec(template@),
            p.at() == 0,
            p.symbol_table == symbol_table,
            is_leaf(&p.root, AstType::Template, Seq::<char>::empty()),
            p.diagnostic@ == Seq::<Diagnostic>::empty(),
    {
        let tokens = tokenize(template.as_str());
        Parser {
            tokens,
            pos: 0,
            symbol_table,
            root: Ast::new(AstType::Template),
            diagnostic: ParseDiagnostic::new(),
        }
    }

    /// One token of lookahead: the kind of the token after the current
    /// one, without consuming anything.
    fn peek(&self) -> (k: TokenType)
        requires
            self.wf(),
        ensures
            k == peek_kind(self.toks(), self.at()),
    {
        let n = self.tokens.len();
        proof {
            assert(self.toks().len() == self.tokens@.len());
        }
        if self.pos + 1 < n {
            self.tokens[self.pos + 1].tok_type
        } else {
            TokenType::Eof
        }
    }

    /// Advances the cursor by one token. At the end of input it stays
    /// put: the lexer's final `Eof` is yielded again and again.
    fn get_next_tok(&mut self)
        requires
            old(self).wf(),
        ensures
            final(self).wf(),
            final(self).toks() == old(self).toks(),
            final(self).diagnostic == old(self).diagnostic,
            final(self).symbol_table == old(self).symbol_table,
            final(self).root == old(self).root,
            old(self).cur().kind != TokenType::Eof ==> final(self).at() == old(self).at() + 1,
            old(self).cur().kind == TokenType::Eof ==> final(self).at() == old(self).at(),
    {
        let n = self.tokens.len();
        proof {
            assert(self.toks().len() == self.tokens@.len());
        }
        if self.tokens[self.pos].tok_type != TokenType::Eof {
            self.pos = self.pos + 1;
        }
    }

    /// Matches the current token against an expected kind. A match is
    /// consumed; a mismatch is recorded as one error citing the offending
    /// token, which is left in place — no synthetic token is inserted, so
    /// the caller must tolerate a malformed subtree afterwards.
    fn expect(&mut self, token_type: TokenType)
        requires
            old(self).wf(),
        ensures
            Self::steady(old(self), final(self)),
            final(self).symbol_table == old(self).symbol_table,
            final(self).root == old(self).root,
            old(self).cur().kind == token_type && token_type != TokenType::Eof ==> final(self).at()
                == old(self).at() + 1 && final(self).diagnostic@ == old(self).diagnostic@,
            old(self).cur().kind == token_type && token_type == TokenType::Eof ==> final(self).at()
                == old(self).at() && final(self).diagnostic@ == old(self).diagnostic@,
            old(self).cur().kind != token_type ==> ({
                &&& final(self).at() == old(self).at()
                &&& final(self).diagnostic@.len() == old(self).diagnostic@.len() + 1
                &&& final(self).diagnostic@.last().severity == Severity::Error
                &&& has_error(final(self).diagnostic@)
            }),
    {
        if self.tokens[self.pos].tok_type == token_type {
            self.get_next_tok();
        } else {
            let msg = String::new().concat("Expected ").concat(
                token_type_name(token_type),
            ).concat(", found ").concat(token_type_name(self.tokens[self.pos].tok_type));
            let offending = Token {
                tok_type: self.tokens[self.pos].tok_type,
                val: self.tokens[self.pos].val.clone(),
            };
            self.diagnostic.parse_err(msg.as_str(), &offending);
            proof {
                let w = self.diagnostic@.len() - 1;
                assert(0 <= w < self.diagnostic@.len() && self.diagnostic@[w].severity
                    == Severity::Error);
            }
        }
    }

    /// The kind of the token under the cursor.
    fn curr_kind(&self) -> (k: TokenType)
        requires
            self.wf(),
        ensures
            k == self.cur().kind,
    {
        proof {
            assert(self.toks().len() == self.tokens@.len());
        }
        self.tokens[self.pos].tok_type
    }

    /// A copy of the text of the token under the cursor.
    fn curr_val(&self) -> (v: String)
        requires
            self.wf(),
        ensures
            v@ == self.cur().text,
    {
        proof {
            assert(self.toks().len() == self.tokens@.len());
        }
        self.tokens[self.pos].val.clone()
    }

    /// Parses one term: a constant identifier or number, a parenthesized
    /// expression, or the end of input. An identifier directly followed by
    /// `(` names an element declaration and becomes `ElementName`; any
    /// other identifier becomes `Ident`. A stray `->` here is a recorded
    /// error; any other unexpected token yields an `Eof` node and is left
    /// for the caller.
    fn term(&mut self) -> (r: Ast)
        requires
            old(self).wf(),
        ensures
            Self::steady(old(self), final(self)),
            final(self).symbol_table == old(self).symbol_table,
            old(self).cur().kind == TokenType::Ident && peek_kind(old(self).toks(), old(self).at())
                == TokenType::LeftParen ==> is_leaf(&r, AstType::ElementName, old(self).cur().text)
                && final(self).at() == old(self).at() + 1 && Self::quiet(old(self), final(self)),
            old(self).cur().kind == TokenType::Ident && peek_kind(old(self).toks(), old(self).at())
                != TokenType::LeftParen ==> is_leaf(&r, AstType::Ident, old(self).cur().text)
                && final(self).at() == old(self).at() + 1 && Self::quiet(old(self), final(self)),
            old(self).cur().kind == TokenType::Number ==> is_leaf(&r, AstType::Number, old(self).cur().text) && final(self).at() == old(self).at() + 1 && Self::quiet(old(self), final(self)),
            old(self).cur().kind == TokenType::Eof ==> r.ast_type == AstType::Eof && final(self).at()
                == old(self).at() && Self::quiet(old(self), final(self)),
            old(self).cur().kind == TokenType::Arrow ==> ({
                &&& r.ast_type == AstType::Eof
                &&& final(self).at() == old(self).at()
                &&& final(self).diagnostic@.len() == old(self).diagnostic@.len() + 1
                &&& final(self).diagnostic@.last().severity == Severity::Error
                &&& final(self).symbol_table == old(self).symbol_table
            }),
            old(self).cur().kind == TokenType::LeftParen && plain_expr_at(
                old(self).toks(),
                old(self).at() + 1,
            ) && old(self).toks()[old(self).at() + 2].kind == TokenType::RightParen ==> is_leaf(
                &r,
                term_ast_kind(old(self).toks()[old(self).at() + 1].kind),
                old(self).toks()[old(self).at() + 1].text,
            ) && final(self).at() == old(self).at() + 3 && Self::quiet(old(self), final(self)),
            !(old(self).cur().kind == TokenType::Ident || old(self).cur().kind == TokenType::Number
                || old(self).cur().kind == TokenType::Eof || old(self).cur().kind
                == TokenType::Arrow || old(self).cur().kind == TokenType::LeftParen) ==> r.ast_type
                == AstType::Eof && final(self).at() == old(self).at() && Self::quiet(old(self), final(self)),
        decreases old(self).toks().len() - old(self).at(), 0int,
    {
        let k = self.curr_kind();
        match k {
            TokenType::Ident => {
                let m_type = if self.peek() == TokenType::LeftParen {
                    AstType::ElementName
                } else {
                    AstType::Ident
                };
                let v = self.curr_val();
                let a = Ast::new_from_value(m_type, &v);
                self.get_next_tok();
                a
            },
            TokenType::Number => {
                let v = self.curr_val();
                let a = Ast::new_from_value(AstType::Number, &v);
                self.get_next_tok();
                a
            },
            TokenType::Eof => Ast::new(AstType::Eof),
            TokenType::Arrow => {
                let offending = Token { tok_type: k, val: self.curr_val() };
                self.diagnostic.parse_err("Unexpected token found", &offending);
                Ast::new(AstType::Eof)
            },
            TokenType::LeftParen => {
                self.get_next_tok();
                let e = self.expr();
                self.expect(TokenType::RightParen);
                e
            },
            _ => Ast::new(AstType::Eof),
        }
    }

    /// Parses an arithmetic chain: a term possibly followed by
    /// left-associative `+`/`-` steps, each wrapping what came before as
    /// the left child.
    fn op(&mut self) -> (r: Ast)
        requires
            old(self).wf(),
        ensures
            Self::steady(old(self), final(self)),
            final(self).symbol_table == old(self).symbol_table,
            simple_term_at(old(self).toks(), old(self).at()) && old(self).toks()[old(self).at()
                + 1].kind != TokenType::Plus && old(self).toks()[old(self).at() + 1].kind
                != TokenType::Minus ==> is_leaf(
                &r,
                term_ast_kind(old(self).cur().kind),
                old(self).cur().text,
            ) && final(self).at() == old(self).at() + 1 && Self::quiet(old(self), final(self)),
            old(self).cur().kind == TokenType::Ident && peek_kind(old(self).toks(), old(self).at())
                == TokenType::LeftParen ==> is_leaf(&r, AstType::ElementName, old(self).cur().text)
                && final(self).at() == old(self).at() + 1 && Self::quiet(old(self), final(self)),
            old(self).cur().kind == TokenType::Eof ==> r.ast_type == AstType::Eof && final(self).at()
                == old(self).at() && Self::quiet(old(self), final(self)),
            two_term_chain_at(old(self).toks(), old(self).at()) ==> ({
                &&& r.ast_type == (if old(self).toks()[old(self).at() + 1].kind == TokenType::Plus {
                    AstType::Plus
                } else {
                    AstType::Minus
                })
                &&& r.val@ == Seq::<char>::empty()
                &&& r.var_type is None
                &&& r.children@.len() == 2
                &&& is_leaf(
                    &child_of(&r, 0),
                    term_ast_kind(old(self).cur().kind),
                    old(self).cur().text,
                )
                &&& is_leaf(
                    &child_of(&r, 1),
                    term_ast_kind(old(self).toks()[old(self).at() + 2].kind),
                    old(self).toks()[old(self).at() + 2].text,
                )
                &&& final(self).at() == old(self).at() + 3
                &&& Self::quiet(old(self), final(self))
            }),
            forall|k: nat| simple_term_at(old(self).toks(), old(self).at()) && #[trigger] op_steps_at(
                old(self).toks(),
                old(self).at() + 1,
                k,
            ) ==> is_op_chain_node(&r, old(self).toks(), old(self).at(), k) && final(self).at()
                == old(self).at() + 2 * k + 1 && Self::quiet(old(self), final(self)),
        decreases old(self).toks().len() - old(self).at(), 1int,
    {
        let ghost pre = *self;
        let ghost q0 = pre.at() + 1;
        let ghost ochg = simple_term_at(pre.toks(), pre.at()) && (exists|k: nat|
            op_steps_at(pre.toks(), q0, k));
        let ghost mut done: nat = 0;
        let mut node = self.term();
        #[verifier::loop_isolation(false)]
        while self.more_ops()
            invariant
                self.wf(),
                Self::steady(&pre, self),
                self.symbol_table == pre.symbol_table,
                simple_term_at(pre.toks(), pre.at()) && pre.toks()[pre.at() + 1].kind
                    != TokenType::Plus && pre.toks()[pre.at() + 1].kind != TokenType::Minus ==>
                    is_leaf(&node, term_ast_kind(pre.cur().kind), pre.cur().text) && self.at()
                    == pre.at() + 1 && Self::quiet(&pre, self),
                pre.cur().kind == TokenType::Ident && peek_kind(pre.toks(), pre.at())
                    == TokenType::LeftParen ==> is_leaf(&node, AstType::ElementName, pre.cur().text)
                    && self.at() == pre.at() + 1 && Self::quiet(&pre, self),
                pre.cur().kind == TokenType::Eof ==> node.ast_type == AstType::Eof && self.at()
                    == pre.at() && Self::quiet(&pre, self),
                two_term_chain_at(pre.toks(), pre.at()) ==> (self.at() == pre.at() + 1 && is_leaf(
                    &node,
                    term_ast_kind(pre.cur().kind),
                    pre.cur().text,
                ) && Self::quiet(&pre, self)) || ({
                    &&& self.at() == pre.at() + 3
                    &&& node.ast_type == (if pre.toks()[pre.at() + 1].kind == TokenType::Plus {
                        AstType::Plus
                    } else {
                        AstType::Minus
                    })
                    &&& node.val@ == Seq::<char>::empty()
                    &&& node.var_type is None
                    &&& node.children@.len() == 2
                    &&& is_leaf(&child_of(&node, 0), term_ast_kind(pre.cur().kind), pre.cur().text)
                    &&& is_leaf(
                        &child_of(&node, 1),
                        term_ast_kind(pre.toks()[pre.at() + 2].kind),
                        pre.toks()[pre.at() + 2].text,
                    )
                    &&& Self::quiet(&pre, self)
                }),
                ochg ==> op_steps_taken(pre.toks(), q0, done) && self.at() == q0 + 2 * done
                    && is_op_chain_node(&node, pre.toks(), pre.at(), done) && Self::quiet(
                    &pre,
                    self,
                ),
            decreases self.toks().len() - self.at(), 1int,
        {
            proof {
                if ochg {
                    let k0 = choose|k: nat| op_steps_at(pre.toks(), q0, k);
                    lemma_op_steps_status(pre.toks(), q0, k0, done);
                }
            }
            let k = self.curr_kind();
            let op_kind = if k == TokenType::Plus {
                AstType::Plus
            } else {
                AstType::Minus
            };
            self.get_next_tok();
            let right = self.term();
            let mut parent = Ast::new(op_kind);
            parent.children.push(Box::new(node));
            parent.children.push(Box::new(right));
            node = parent;
            proof {
                if ochg {
                    lemma_op_taken_snoc(pre.toks(), q0, done);
                    assert(is_op_chain_node(&node, pre.toks(), pre.at(), done + 1));
                    done = done + 1;
                }
            }
        }
        proof {
            assert forall|k: nat|
                simple_term_at(pre.toks(), pre.at()) && #[trigger] op_steps_at(
                    pre.toks(),
                    q0,
                    k,
                ) implies is_op_chain_node(&node, pre.toks(), pre.at(), k) && self.at() == q0 + 2
                * k by {
                lemma_op_steps_status(pre.toks(), q0, k, done);
            }
        }
        node
    }

    /// Parses an expression: an arithmetic chain, possibly followed by a
    /// single comparison (never chained), or turned into an assignment by
    /// `: Type = value`. A bare `=` without the declared type is recorded
    /// as an error and yields an `Empty` node.
    fn expr(&mut self) -> (r: Ast)
        requires
            old(self).wf(),
        ensures
            Self::steady(old(self), final(self)),
            final(self).symbol_table == old(self).symbol_table,
            cmp_expr_at(old(self).toks(), old(self).at()) ==> is_cmp_node(
                &r,
                old(self).toks(),
                old(self).at(),
            ) && final(self).at() == old(self).at() + 3 && Self::quiet(old(self), final(self)),
            assign_expr_at(old(self).toks(), old(self).at()) ==> is_assign_node(
                &r,
                old(self).toks(),
                old(self).at(),
            ) && final(self).at() == old(self).at() + 5 && Self::quiet(old(self), final(self)),
            plain_expr_at(old(self).toks(), old(self).at()) ==> is_leaf(
                &r,
                term_ast_kind(old(self).cur().kind),
                old(self).cur().text,
            ) && final(self).at() == old(self).at() + 1 && Self::quiet(old(self), final(self)),
        decreases old(self).toks().len() - old(self).at(), 2int,
    {
        let ghost pre = *self;
        let left = self.op();
        let k = self.curr_kind();
        if is_op(&k) {
            let cmp_kind = match k {
                TokenType::Gt => AstType::Gt,
                TokenType::Lt => AstType::Lt,
                TokenType::GtEquals => AstType::GtEquals,
                TokenType::LtEquals => AstType::LtEquals,
                TokenType::NotEquals => AstType::NotEquals,
                _ => AstType::EqualsEquals,
            };
            self.get_next_tok();
            let right = self.op();
            let mut node = Ast::new(cmp_kind);
            node.children.push(Box::new(left));
            node.children.push(Box::new(right));
            node
        } else if k == TokenType::Colon {
            self.get_next_tok();
            let ty = self.curr_val();
            let mut named = left;
            named.var_type = Some(ty);
            self.get_next_tok();
            self.expect(TokenType::Equals);
            let value = self.op();
            let mut node = Ast::new(AstType::AssignExpr);
            node.children.push(Box::new(named));
            node.children.push(Box::new(value));
            node
        } else if k == TokenType::Equals {
            // An assignment without its `: Type` part: the missing
            // declared type is recorded, the `=` is consumed, and the
            // malformed declaration becomes an `Empty` node, which the
            // symbol table then refuses as fatal.
            self.expect(TokenType::Ident);
            self.get_next_tok();
            let value = self.op();
            let mut node = Ast::new(AstType::Empty);
            node.children.push(Box::new(left));
            node.children.push(Box::new(value));
            node
        } else {
            left
        }
    }


    /// Drives the whole parse. Elements are appended to the root in source
    /// order; when the input is exhausted a final `Eof` node marks the end,
    /// and on a token no element can begin with, the rest of the input is
    /// left unread. Empty input — nothing to parse — is itself an error.
    /// A fatal internal-consistency failure stops the parse and is returned;
    /// everything recoverable is in `diagnostic` afterwards.
    #[verifier::rlimit(100)]
    #[verifier::spinoff_prover]
    pub fn parse(&mut self) -> (r: Result<(), FatalError>)
        requires
            old(self).wf(),
        ensures
            final(self).wf(),
            final(self).toks() == old(self).toks(),
            old(self).at() <= final(self).at(),
            extends(old(self).diagnostic@, final(self).diagnostic@),
            old(self).symbol_table@.submap_of(final(self).symbol_table@),
            final(self).root.ast_type == old(self).root.ast_type,
            final(self).root.val == old(self).root.val,
            old(self).cur().kind == TokenType::Eof ==> has_error(final(self).diagnostic@),
            reported_error_at(old(self).toks(), old(self).at()) ==> has_error(
                final(self).diagnostic@,
            ),
            closed_element_at(old(self).toks(), old(self).at()) && old(self).toks()[
                closed_element_end(old(self).toks(), old(self).at())].kind == TokenType::Eof
                && !has_error(old(self).diagnostic@) ==> ({
                &&& r == Ok::<(), FatalError>(())
                &&& final(self).root.children@.len() == old(self).root.children@.len() + 2
                &&& final(self).root.children@.subrange(0, old(self).root.children@.len() as int)
                    =~= old(self).root.children@
                &&& is_closed_element_node(
                    &child_of(&final(self).root, old(self).root.children@.len() as int),
                    old(self).toks(),
                    old(self).at(),
                )
                &&& child_of(&final(self).root, old(self).root.children@.len() as int + 1).ast_type
                    == AstType::Eof
                &&& Self::quiet(old(self), final(self))
            }),
            let_decl_at(old(self).toks(), old(self).at()) && !old(self).symbol_table@.contains_key(
                old(self).toks()[old(self).at() + 1].text,
            ) ==> ({
                &&& final(self).symbol_table@.contains_key(
                    old(self).toks()[old(self).at() + 1].text,
                )
                &&& crate::symbol_table::symbol_is(
                    final(self).symbol_table@[old(self).toks()[old(self).at() + 1].text],
                    old(self).toks()[old(self).at() + 1].text,
                    old(self).toks()[old(self).at() + 3].text,
                    old(self).toks()[old(self).at() + 5].text,
                    crate::symbol_table::Scope::Global,
                )
                &&& (r is Ok ==> ({
                    &&& final(self).root.children@.len() > old(self).root.children@.len()
                    &&& final(self).root.children@.subrange(
                        0,
                        old(self).root.children@.len() as int,
                    ) =~= old(self).root.children@
                    &&& child_of(&final(self).root, old(self).root.children@.len() as int).ast_type
                        == AstType::Element
                    &&& child_of(
                        &final(self).root,
                        old(self).root.children@.len() as int,
                    ).children@.len() >= 1
                    &&& is_assign_node(
                        &child_of(
                            &child_of(&final(self).root, old(self).root.children@.len() as int),
                            0,
                        ),
                        old(self).toks(),
                        old(self).at() + 1,
                    )
                }))
            }),
            let_elem_at(old(self).toks(), old(self).at()) && old(self).toks()[old(self).at()
                + 6].kind == TokenType::Eof && !old(self).symbol_table@.contains_key(
                old(self).toks()[old(self).at() + 1].text,
            ) ==> ({
                &&& r == Ok::<(), FatalError>(())
                &&& final(self).root.children@.len() == old(self).root.children@.len() + 2
                &&& final(self).root.children@.subrange(0, old(self).root.children@.len() as int)
                    =~= old(self).root.children@
                &&& child_of(&final(self).root, old(self).root.children@.len() as int).ast_type
                    == AstType::Element
                &&& child_of(&final(self).root, old(self).root.children@.len() as int).children@.len()
                    == 1
                &&& is_assign_node(
                    &child_of(&child_of(&final(self).root, old(self).root.children@.len() as int), 0),
                    old(self).toks(),
                    old(self).at() + 1,
                )
                &&& child_of(&final(self).root, old(self).root.children@.len() as int + 1).ast_type
                    == AstType::Eof
                &&& final(self).diagnostic@ == old(self).diagnostic@
                &&& crate::symbol_table::symbol_is(
                    final(self).symbol_table@[old(self).toks()[old(self).at() + 1].text],
                    old(self).toks()[old(self).at() + 1].text,
                    old(self).toks()[old(self).at() + 3].text,
                    old(self).toks()[old(self).at() + 5].text,
                    crate::symbol_table::Scope::Global,
                )
            }),
            let_decl_at(old(self).toks(), old(self).at()) && old(self).symbol_table@.contains_key(
                old(self).toks()[old(self).at() + 1].text,
            ) ==> ({
                &&& r == Err::<(), FatalError>(FatalError::Redeclared)
                &&& final(self).root == old(self).root
                &&& final(self).diagnostic@ == old(self).diagnostic@
                &&& final(self).symbol_table@ == old(self).symbol_table@
            }),
    {
        let ghost pre = *self;
        if self.curr_kind() == TokenType::Eof {
            self.diagnostic.new_err("End of input reached, nothing to parse!");
            proof {
                let w = self.diagnostic@.len() - 1;
                assert(0 <= w < self.diagnostic@.len() && self.diagnostic@[w].severity
                    == Severity::Error);
            }
        }
        let mut go = true;
        if self.curr_kind() != TokenType::Eof {
            let before = self.pos;
            let el = match self.element() {
                Ok(a) => a,
                Err(e) => {
                    proof {
                        if let_decl_at(pre.toks(), pre.at()) && !pre.symbol_table@.contains_key(
                            pre.toks()[pre.at() + 1].text,
                        ) {
                            assert(self.symbol_table@.contains_key(
                                pre.toks()[pre.at() + 1].text,
                            ));
                        }
                    }
                    return Err(e);
                },
            };
            if self.pos == before {
                go = false;
            } else {
                self.root.children.push(Box::new(el));
            }
        }
        let ghost mid = *self;
        let ghost entry_go = go;
        proof {
            if let_decl_at(pre.toks(), pre.at()) && !pre.symbol_table@.contains_key(
                pre.toks()[pre.at() + 1].text,
            ) {
                let nm = pre.toks()[pre.at() + 1].text;
                assert(mid.symbol_table@.dom().contains(nm));
                assert(crate::symbol_table::symbol_is(
                    mid.symbol_table@[nm],
                    nm,
                    pre.toks()[pre.at() + 3].text,
                    pre.toks()[pre.at() + 5].text,
                    crate::symbol_table::Scope::Global,
                ));
            }
        }
        #[verifier::loop_isolation(false)]
        while go && self.curr_kind() != TokenType::Eof
            invariant
                self.wf(),
                self.toks() == mid.toks(),
                mid.at() <= self.at(),
                extends(mid.diagnostic@, self.diagnostic@),
                mid.symbol_table@.submap_of(self.symbol_table@),
                self.root.ast_type == mid.root.ast_type,
                self.root.val == mid.root.val,
                self.root.var_type == mid.root.var_type,
                mid.root.children@.len() <= self.root.children@.len(),
                forall|i: int| 0 <= i < mid.root.children@.len() ==> self.root.children@[i] == (
                #[trigger] mid.root.children@[i]),
                !(entry_go && mid.cur().kind != TokenType::Eof) ==> *self == mid && go == entry_go,
            decreases self.toks().len() - self.at(), (if go {
                1int
            } else {
                0int
            }),
        {
            let ghost it0 = *self;
            let before = self.pos;
            let el = match self.element() {
                Ok(a) => a,
                Err(e) => {
                    proof {
                        if let_decl_at(pre.toks(), pre.at()) && !pre.symbol_table@.contains_key(
                            pre.toks()[pre.at() + 1].text,
                        ) {
                            let nm = pre.toks()[pre.at() + 1].text;
                            assert(mid.symbol_table@.dom().contains(nm));
                            assert(mid.symbol_table@.submap_of(it0.symbol_table@));
                            assert(it0.symbol_table@.submap_of(self.symbol_table@));
                            assert(mid.symbol_table@.submap_of(self.symbol_table@));
                            assert(self.symbol_table@.contains_key(nm) && self.symbol_table@[nm]
                                == mid.symbol_table@[nm]);
                        }
                    }
                    return Err(e);
                },
            };
            if self.pos == before {
                go = false;
            } else {
                self.root.children.push(Box::new(el));
            }
        }
        let ghost after_loop = *self;
        if self.curr_kind() == TokenType::Eof {
            self.root.children.push(Box::new(Ast::new(AstType::Eof)));
        }
        proof {
            assert(forall|i: int| 0 <= i < after_loop.root.children@.len()
                ==> self.root.children@[i] == (#[trigger] after_loop.root.children@[i]));
            if let_decl_at(pre.toks(), pre.at()) && !pre.symbol_table@.contains_key(
                pre.toks()[pre.at() + 1].text,
            ) {
                let k = pre.root.children@.len() as int;
                assert(k < mid.root.children@.len());
                assert forall|i: int| 0 <= i <= k implies self.root.children@[i] == (
                #[trigger] mid.root.children@[i]) by {
                    assert(after_loop.root.children@[i] == mid.root.children@[i]);
                    assert(self.root.children@[i] == after_loop.root.children@[i]);
                }
                assert forall|i: int| 0 <= i < k implies self.root.children@.subrange(0, k)[i]
                    == (#[trigger] pre.root.children@[i]) by {
                    assert(mid.root.children@[i] == pre.root.children@[i]);
                    assert(self.root.children@[i] == mid.root.children@[i]);
                }
                assert(self.root.children@.subrange(0, k) =~= pre.root.children@);
                assert(child_of(&self.root, k) == child_of(&mid.root, k));
                assert(child_of(&mid.root, k).ast_type == AstType::Element);
                assert(child_of(&mid.root, k).children@.len() >= 1);
                assert(is_assign_node(&child_of(&child_of(&mid.root, k), 0), pre.toks(), pre.at() + 1));
            }
        }
        Ok(())
    }

    /// Whether the attribute-pair loop has more work: the closing paren
    /// has not been reached and no error is on record yet.
    fn more_attrs(&self) -> (r: bool)
        requires
            self.wf(),
        ensures
            r == (self.cur().kind != TokenType::RightParen && !has_error(self.diagnostic@)),
    {
        self.curr_kind() != TokenType::RightParen && !self.diagnostic.is_err()
    }

    /// Whether the contents loop has more work: the current token is still
    /// a word or an interpolation and does not open an element declaration.
    fn more_contents(&self) -> (r: bool)
        requires
            self.wf(),
        ensures
            r == ((self.cur().kind == TokenType::Ident || self.cur().kind == TokenType::Percent)
                && peek_kind(self.toks(), self.at()) != TokenType::LeftParen),
    {
        let kc = self.curr_kind();
        (kc == TokenType::Ident || kc == TokenType::Percent) && self.peek() != TokenType::LeftParen
    }

    /// Whether an arithmetic chain continues at the cursor.
    fn more_ops(&self) -> (r: bool)
        requires
            self.wf(),
        ensures
            r == (self.cur().kind == TokenType::Plus || self.cur().kind == TokenType::Minus),
    {
        let kc = self.curr_kind();
        kc == TokenType::Plus || kc == TokenType::Minus
    }

    /// Parses an attribute list: `(` then any number of `name : value`
    /// pairs, not comma-separated, then `)` and the mandatory `->`. A
    /// missing colon, paren or arrow is recorded through [`Parser::expect`]
    /// and parsing resumes; the pair loop stops as soon as an error is on
    /// record, so unrecoverable input cannot keep it busy.
    fn attr_list(&mut self) -> (r: Ast)
        requires
            old(self).wf(),
            old(self).cur().kind == TokenType::LeftParen,
        ensures
            Self::steady(old(self), final(self)),
            final(self).symbol_table == old(self).symbol_table,
            r.ast_type == AstType::AttrList,
            r.val@ == Seq::<char>::empty(),
            r.var_type is None,
            empty_attrs_at(old(self).toks(), old(self).at()) ==> r.children@.len() == 0 && final(self).at() == old(self).at() + 3 && Self::quiet(old(self), final(self)),
            one_pair_attrs_at(old(self).toks(), old(self).at()) && !has_error(
                old(self).diagnostic@,
            ) ==> ({
                &&& r.children@.len() == 2
                &&& is_leaf(&child_of(&r, 0), AstType::Ident, old(self).toks()[old(self).at() + 1].text)
                &&& is_leaf(&child_of(&r, 1), AstType::Ident, old(self).toks()[old(self).at() + 3].text)
                &&& final(self).at() == old(self).at() + 6
                &&& Self::quiet(old(self), final(self))
            }),
            forall|n: nat| #[trigger] attr_pairs_at(old(self).toks(), old(self).at() + 1, n)
                && old(self).at() + 2 + 3 * n < old(self).toks().len() && old(self).toks()[old(
                self,
            ).at() + 2 + 3 * n].kind == TokenType::Arrow && !has_error(old(self).diagnostic@)
                ==> ({
                &&& attr_children_match(r.children@, old(self).toks(), old(self).at() + 1, n)
                &&& r.children@.len() == 2 * n
                &&& final(self).at() == old(self).at() + 3 + 3 * n
                &&& Self::quiet(old(self), final(self))
            }),
            old(self).at() + 2 < old(self).toks().len() && old(self).toks()[old(self).at()
                + 1].kind == TokenType::Ident && old(self).toks()[old(self).at() + 2].kind
                != TokenType::Colon ==> has_error(final(self).diagnostic@),
            old(self).at() + 4 < old(self).toks().len() && old(self).toks()[old(self).at()
                + 1].kind == TokenType::Ident && old(self).toks()[old(self).at() + 2].kind
                == TokenType::Colon && old(self).toks()[old(self).at() + 3].kind
                == TokenType::Ident && old(self).toks()[old(self).at() + 4].kind
                == TokenType::Arrow ==> has_error(final(self).diagnostic@),
        decreases old(self).toks().len() - old(self).at(), 1int,
    {
        let ghost pre = *self;
        let mut attr_ast = Ast::new(AstType::AttrList);
        self.expect(TokenType::LeftParen);
        let ghost sw_empty = empty_attrs_at(pre.toks(), pre.at());
        let ghost sw_pair = one_pair_attrs_at(pre.toks(), pre.at()) && !has_error(pre.diagnostic@);
        let ghost err_colon = pre.at() + 2 < pre.toks().len() && pre.toks()[pre.at() + 1].kind
            == TokenType::Ident && pre.toks()[pre.at() + 2].kind != TokenType::Colon;
        let ghost err_paren = pre.at() + 4 < pre.toks().len() && pre.toks()[pre.at() + 1].kind
            == TokenType::Ident && pre.toks()[pre.at() + 2].kind == TokenType::Colon && pre.toks()[
            pre.at() + 3].kind == TokenType::Ident && pre.toks()[pre.at() + 4].kind
            == TokenType::Arrow;
        let ghost q0 = pre.at() + 1;
        let ghost pune = (exists|n: nat| attr_pairs_at(pre.toks(), q0, n)) && !has_error(
            pre.diagnostic@,
        );
        let ghost mut done: nat = 0;
        #[verifier::loop_isolation(false)]
        while self.more_attrs()
            invariant
                self.wf(),
                Self::steady(&pre, self),
                self.at() > pre.at(),
                self.symbol_table == pre.symbol_table,
                attr_ast.ast_type == AstType::AttrList,
                attr_ast.val@ == Seq::<char>::empty(),
                attr_ast.var_type is None,
                sw_empty ==> self.at() == pre.at() + 1 && attr_ast.children@.len() == 0
                    && Self::quiet(&pre, self),
                sw_pair ==> (self.at() == pre.at() + 1 && attr_ast.children@.len() == 0
                    && Self::quiet(&pre, self)) || (self.at() == pre.at() + 4
                    && attr_ast.children@.len() == 2 && is_leaf(
                    &child_of(&attr_ast, 0),
                    AstType::Ident,
                    pre.toks()[pre.at() + 1].text,
                ) && is_leaf(&child_of(&attr_ast, 1), AstType::Ident, pre.toks()[pre.at() + 3].text)
                    && Self::quiet(&pre, self)),
                err_colon ==> (self.at() == pre.at() + 1 && self.diagnostic@ == pre.diagnostic@)
                    || has_error(self.diagnostic@),
                err_paren ==> (self.at() == pre.at() + 1 && self.diagnostic@ == pre.diagnostic@)
                    || (self.at() == pre.at() + 4 && self.diagnostic@ == pre.diagnostic@)
                    || has_error(self.diagnostic@),
                pune ==> ({
                    &&& attr_pairs_taken(pre.toks(), q0, done)
                    &&& self.at() == q0 + 3 * done
                    &&& attr_children_match(attr_ast.children@, pre.toks(), q0, done)
                    &&& attr_ast.children@.len() == 2 * done
                    &&& self.diagnostic@ == pre.diagnostic@
                }),
            decreases self.toks().len() - self.at(), (if has_error(self.diagnostic@) {
                0int
            } else {
                1int
            }),
        {
            proof {
                if pune {
                    let n0 = choose|n: nat| attr_pairs_at(pre.toks(), q0, n);
                    lemma_attr_pairs_status(pre.toks(), q0, n0, done);
                }
            }
            let ghost ch0 = attr_ast.children@;
            let a = self.term();
            attr_ast.children.push(Box::new(a));
            self.expect(TokenType::Colon);
            let b = self.term();
            attr_ast.children.push(Box::new(b));
            proof {
                if pune {
                    lemma_attr_taken_snoc(pre.toks(), q0, done);
                    lemma_attr_match_snoc(
                        ch0,
                        attr_ast.children@[attr_ast.children@.len() - 2],
                        attr_ast.children@.last(),
                        pre.toks(),
                        q0,
                        done,
                    );
                    done = done + 1;
                }
            }
        }
        let ghost exit = *self;
        self.expect(TokenType::RightParen);
        self.expect(TokenType::Arrow);
        proof {
            assert forall|n: nat|
                #[trigger] attr_pairs_at(pre.toks(), q0, n) && pre.at() + 2 + 3 * n
                    < pre.toks().len() && pre.toks()[pre.at() + 2 + 3 * n].kind == TokenType::Arrow
                    && !has_error(pre.diagnostic@) implies attr_children_match(
                attr_ast.children@,
                pre.toks(),
                q0,
                n,
            )
                && attr_ast.children@.len() == 2 * n && self.at() == pre.at() + 3 + 3 * n by {
                assert(attr_pairs_at(pre.toks(), q0, n));
                lemma_attr_pairs_status(pre.toks(), q0, n, done);
            }
        }
        attr_ast
    }

    /// Generates the contents of an element: a run of plain words and
    /// `%name%` interpolations, stopping before a word that itself opens an
    /// element declaration. Called on `&` it yields the `Include` leaf; on
    /// a lone `%name%` it yields the `VariableValue` leaf; a stray `->` is
    /// recorded as an error.
    fn contents(&mut self) -> (r: Ast)
        requires
            old(self).wf(),
        ensures
            Self::steady(old(self), final(self)),
            final(self).symbol_table == old(self).symbol_table,
            old(self).cur().kind == TokenType::Arrow ==> ({
                &&& r.ast_type == AstType::Eof
                &&& final(self).at() == old(self).at()
                &&& final(self).diagnostic@.len() == old(self).diagnostic@.len() + 1
                &&& has_error(final(self).diagnostic@)
            }),
            old(self).cur().kind == TokenType::Percent && old(self).toks()[old(self).at()
                + 1].kind == TokenType::Ident ==> ({
                &&& is_leaf(&r, AstType::VariableValue, old(self).toks()[old(self).at() + 1].text)
                &&& Self::quiet(old(self), final(self))
                &&& (old(self).toks()[old(self).at() + 2].kind == TokenType::Percent ==> final(self).at() == old(self).at() + 3)
                &&& (old(self).toks()[old(self).at() + 2].kind != TokenType::Percent ==> final(self).at() == old(self).at() + 2)
            }),
            old(self).cur().kind == TokenType::Ampersand && old(self).toks()[old(self).at()
                + 1].kind == TokenType::Ident ==> is_leaf(
                &r,
                AstType::Include,
                old(self).toks()[old(self).at() + 1].text,
            ) && final(self).at() == old(self).at() + 2 && Self::quiet(old(self), final(self)),
            single_word_at(old(self).toks(), old(self).at()) ==> ({
                &&& r.ast_type == AstType::Contents
                &&& r.val@ == Seq::<char>::empty()
                &&& r.var_type is None
                &&& r.children@.len() == 1
                &&& is_leaf(&child_of(&r, 0), AstType::Ident, old(self).cur().text)
                &&& final(self).at() == old(self).at() + 1
                &&& Self::quiet(old(self), final(self))
            }),
            forall|n: nat| old(self).cur().kind == TokenType::Ident && contents_items_at(
                old(self).toks(),
                old(self).at(),
                n,
            ) && contents_stop_at(
                old(self).toks(),
                contents_items_end(old(self).toks(), old(self).at(), n),
            ) ==> ({
                &&& r.ast_type == AstType::Contents
                &&& r.val@ == Seq::<char>::empty()
                &&& r.var_type is None
                &&& contents_children_match(r.children@, old(self).toks(), old(self).at(), n)
                &&& final(self).at() == contents_items_end(old(self).toks(), old(self).at(), n)
                &&& Self::quiet(old(self), final(self))
            }),
            !(old(self).cur().kind == TokenType::Ident || old(self).cur().kind
                == TokenType::Ampersand || old(self).cur().kind == TokenType::Percent || old(self).cur().kind == TokenType::Arrow) ==> r.ast_type == AstType::Eof && final(self).at()
                == old(self).at() && Self::quiet(old(self), final(self)),
    {
        let ghost pre = *self;
        let k0 = self.curr_kind();
        if k0 == TokenType::Arrow {
            let offending = Token { tok_type: k0, val: self.curr_val() };
            self.diagnostic.parse_err("Unexpected token found", &offending);
            proof {
                let w = self.diagnostic@.len() - 1;
                assert(0 <= w < self.diagnostic@.len() && self.diagnostic@[w].severity
                    == Severity::Error);
            }
            return Ast::new(AstType::Eof);
        }
        if k0 == TokenType::Ident {
            let ghost sw = single_word_at(pre.toks(), pre.at());
            let ghost p0 = pre.at();
            let ghost rune = exists|n: nat|
                contents_items_at(pre.toks(), p0, n) && contents_stop_at(
                    pre.toks(),
                    contents_items_end(pre.toks(), p0, n),
                );
            let ghost mut done: nat = 0;
            let mut contents_ast = Ast::new(AstType::Contents);
            #[verifier::loop_isolation(false)]
            while self.more_contents()
                invariant
                    self.wf(),
                    Self::steady(&pre, self),
                    contents_ast.ast_type == AstType::Contents,
                    contents_ast.val@ == Seq::<char>::empty(),
                    contents_ast.var_type is None,
                    self.symbol_table == pre.symbol_table,
                    self.diagnostic@ == pre.diagnostic@,
                    sw ==> (self.at() == pre.at() && contents_ast.children@.len() == 0
                        && Self::quiet(&pre, self)) || (self.at() == pre.at() + 1
                        && contents_ast.children@.len() == 1 && is_leaf(
                        &child_of(&contents_ast, 0),
                        AstType::Ident,
                        pre.cur().text,
                    ) && Self::quiet(&pre, self)),
                    rune ==> contents_items_at(pre.toks(), p0, done) && self.at()
                        == contents_items_end(pre.toks(), p0, done) && contents_children_match(
                        contents_ast.children@,
                        pre.toks(),
                        p0,
                        done,
                    ),
                decreases self.toks().len() - self.at(),
            {
                proof {
                    if rune {
                        let n0 = choose|n: nat|
                            contents_items_at(pre.toks(), p0, n) && contents_stop_at(
                                pre.toks(),
                                contents_items_end(pre.toks(), p0, n),
                            );
                        assert(!contents_stop_at(pre.toks(), self.at()));
                        lemma_contents_items_split(pre.toks(), p0, n0, done);
                    }
                }
                let kc = self.curr_kind();
                if kc == TokenType::Ident {
                    let ghost ch0 = contents_ast.children@;
                    let v = self.curr_val();
                    contents_ast.children.push(Box::new(Ast::new_from_value(AstType::Ident, &v)));
                    self.get_next_tok();
                    proof {
                        if rune {
                            lemma_contents_items_snoc_word(pre.toks(), p0, done);
                            lemma_contents_match_snoc(
                                ch0,
                                contents_ast.children@.last(),
                                pre.toks(),
                                p0,
                                done,
                            );
                            done = done + 1;
                        }
                    }
                } else {
                    let ghost ch0 = contents_ast.children@;
                    self.get_next_tok();
                    let v = self.curr_val();
                    contents_ast.children.push(
                        Box::new(Ast::new_from_value(AstType::VariableValue, &v)),
                    );
                    self.get_next_tok();
                    if self.curr_kind() == TokenType::Percent {
                        self.get_next_tok();
                    }
                    proof {
                        if rune {
                            lemma_contents_items_snoc_var(pre.toks(), p0, done);
                            lemma_contents_match_snoc(
                                ch0,
                                contents_ast.children@.last(),
                                pre.toks(),
                                p0,
                                done,
                            );
                            done = done + 1;
                        }
                    }
                }
            }
            proof {
                assert forall|n: nat|
                    contents_items_at(pre.toks(), p0, n) && contents_stop_at(
                        pre.toks(),
                        contents_items_end(pre.toks(), p0, n),
                    ) implies contents_children_match(contents_ast.children@, pre.toks(), p0, n)
                    && self.at() == contents_items_end(pre.toks(), p0, n) by {
                    assert(rune);
                    assert(contents_stop_at(pre.toks(), self.at()));
                    lemma_contents_run_unique(pre.toks(), p0, n, done);
                }
            }
            contents_ast
        } else if k0 == TokenType::Ampersand {
            self.get_next_tok();
            let v = self.curr_val();
            let include_ast = Ast::new_from_value(AstType::Include, &v);
            self.get_next_tok();
            include_ast
        } else if k0 == TokenType::Percent {
            self.get_next_tok();
            let v = self.curr_val();
            let var_ast = Ast::new_from_value(AstType::VariableValue, &v);
            self.get_next_tok();
            if self.curr_kind() == TokenType::Percent {
                self.get_next_tok();
            }
            var_ast
        } else {
            Ast::new(AstType::Eof)
        }
    }


    /// Parses an `if` element: the single comparison, the braced body, and
    /// the element that syntactically follows the closing brace, chained as
    /// a trailing child (an `Eof` marker is not chained). A test that is no
    /// comparison, and a missing brace, are recorded errors.
    fn if_expr(&mut self) -> (r: Result<Ast, FatalError>)
        requires
            old(self).wf(),
            old(self).cur().kind == TokenType::Ident,
        ensures
            Self::steady(old(self), final(self)),
            r matches Ok(a) ==> a.ast_type == AstType::IfExpr,
            if_simple_at(old(self).toks(), old(self).at()) ==> (r matches Ok(a) ==> a.children@.len()
                >= 1 && is_cmp_node(&child_of(&a, 0), old(self).toks(), old(self).at() + 1)),
            if_closed_at(old(self).toks(), old(self).at()) ==> (r matches Ok(a)
                && is_closed_if_node(&a, old(self).toks(), old(self).at())) && final(self).at()
                == old(self).at() + 7 && Self::quiet(old(self), final(self)),
            if_unclosed_at(old(self).toks(), old(self).at()) ==> has_error(
                final(self).diagnostic@,
            ),
        decreases old(self).toks().len() - old(self).at(), 3int,
    {
        self.get_next_tok();
        let mut if_ast = Ast::new(AstType::IfExpr);
        let cond = self.expr();
        let cond_is_cmp = match cond.ast_type {
            AstType::Gt => true,
            AstType::Lt => true,
            AstType::GtEquals => true,
            AstType::LtEquals => true,
            AstType::NotEquals => true,
            AstType::EqualsEquals => true,
            _ => false,
        };
        if !cond_is_cmp {
            self.diagnostic.new_err("Expected a comparison in if expression");
        }
        if_ast.children.push(Box::new(cond));
        self.expect(TokenType::LeftBrace);
        let body = match self.element() {
            Ok(a) => a,
            Err(e) => {
                return Err(e);
            },
        };
        if_ast.children.push(Box::new(body));
        self.expect(TokenType::RightBrace);
        let next = match self.element() {
            Ok(a) => a,
            Err(e) => {
                return Err(e);
            },
        };
        if next.ast_type != AstType::Eof {
            if_ast.children.push(Box::new(next));
        }
        Ok(if_ast)
    }

    /// Parses a `for` element: the iteration variable with its mandatory
    /// declared type, the word `in`, the collection, and the braced body.
    /// The variable is registered as `ForLocal` before the body is parsed,
    /// so references inside the body resolve; a name already taken is a
    /// fatal failure.
    fn for_expr(&mut self) -> (r: Result<Ast, FatalError>)
        requires
            old(self).wf(),
            old(self).cur().kind == TokenType::Ident,
        ensures
            Self::steady(old(self), final(self)),
            r matches Ok(a) ==> a.ast_type == AstType::ForExpr,
            for_closed_at(old(self).toks(), old(self).at()) && !old(self).symbol_table@.contains_key(
                old(self).toks()[old(self).at() + 1].text,
            ) ==> ({
                &&& r matches Ok(a) && is_closed_for_node(&a, old(self).toks(), old(self).at())
                &&& final(self).at() == old(self).at() + 8
                &&& final(self).diagnostic@ == old(self).diagnostic@
                &&& crate::symbol_table::symbol_is(
                    final(self).symbol_table@[old(self).toks()[old(self).at() + 1].text],
                    old(self).toks()[old(self).at() + 1].text,
                    old(self).toks()[old(self).at() + 3].text,
                    old(self).toks()[old(self).at() + 1].text,
                    crate::symbol_table::Scope::ForLocal,
                )
            }),
            for_closed_at(old(self).toks(), old(self).at()) && old(self).symbol_table@.contains_key(
                old(self).toks()[old(self).at() + 1].text,
            ) ==> r == Err::<Ast, FatalError>(FatalError::Redeclared) && final(self).diagnostic@
                == old(self).diagnostic@ && final(self).symbol_table@ == old(self).symbol_table@,
        decreases old(self).toks().len() - old(self).at(), 3int,
    {
        self.get_next_tok();
        let mut for_ast = Ast::new(AstType::ForExpr);
        let mut first = self.term();
        self.expect(TokenType::Colon);
        let ty = self.curr_val();
        first.var_type = Some(ty);
        match self.symbol_table.insert_for_id(&first) {
            Ok(_) => {},
            Err(e) => {
                return Err(e);
            },
        }
        for_ast.children.push(Box::new(first));
        self.get_next_tok();
        let in_word: String = "in".to_owned();
        if self.curr_val() != in_word {
            self.diagnostic.new_err("Expected 'in' at for loop");
        } else {
            self.get_next_tok();
        }
        let collection = self.term();
        for_ast.children.push(Box::new(collection));
        let body = match self.element() {
            Ok(a) => a,
            Err(e) => {
                return Err(e);
            },
        };
        for_ast.children.push(Box::new(body));
        Ok(for_ast)
    }

    /// Parses a `let` element. The declaration is registered as a `Global`
    /// symbol as soon as its value is parsed — later siblings may refer to
    /// it, earlier ones may not — and the element that follows is chained
    /// as a trailing child. A declaration without its type label, or a
    /// name already taken, is a fatal failure.
    fn assign_expr(&mut self) -> (r: Result<Ast, FatalError>)
        requires
            old(self).wf(),
            old(self).cur().kind == TokenType::Ident,
        ensures
            Self::steady(old(self), final(self)),
            r matches Ok(a) ==> a.ast_type == AstType::Element,
            old(self).cur().text == "let"@ && assign_expr_at(old(self).toks(), old(self).at() + 1)
                && !old(self).symbol_table@.contains_key(
                old(self).toks()[old(self).at() + 1].text,
            ) ==> ({
                &&& (r matches Ok(a) ==> a.ast_type == AstType::Element && a.children@.len() >= 1
                    && is_assign_node(&child_of(&a, 0), old(self).toks(), old(self).at() + 1))
                &&& final(self).at() > old(self).at()
                &&& final(self).symbol_table@.contains_key(
                    old(self).toks()[old(self).at() + 1].text,
                )
                &&& crate::symbol_table::symbol_is(
                    final(self).symbol_table@[old(self).toks()[old(self).at() + 1].text],
                    old(self).toks()[old(self).at() + 1].text,
                    old(self).toks()[old(self).at() + 3].text,
                    old(self).toks()[old(self).at() + 5].text,
                    crate::symbol_table::Scope::Global,
                )
            }),
            old(self).cur().text == "let"@ && assign_expr_at(old(self).toks(), old(self).at() + 1)
                && !old(self).symbol_table@.contains_key(
                old(self).toks()[old(self).at() + 1].text,
            ) && element_stuck_at(old(self).toks(), old(self).at() + 6) ==> ({
                &&& r matches Ok(a) && a.ast_type == AstType::Element && a.children@.len() == 1
                    && is_assign_node(&child_of(&a, 0), old(self).toks(), old(self).at() + 1)
                &&& final(self).at() == old(self).at() + 6
                &&& final(self).diagnostic@ == old(self).diagnostic@
                &&& final(self).symbol_table@ == old(self).symbol_table@.insert(
                    old(self).toks()[old(self).at() + 1].text,
                    final(self).symbol_table@[old(self).toks()[old(self).at() + 1].text],
                )
                &&& crate::symbol_table::symbol_is(
                    final(self).symbol_table@[old(self).toks()[old(self).at() + 1].text],
                    old(self).toks()[old(self).at() + 1].text,
                    old(self).toks()[old(self).at() + 3].text,
                    old(self).toks()[old(self).at() + 5].text,
                    crate::symbol_table::Scope::Global,
                )
            }),
            old(self).cur().text == "let"@ && assign_expr_at(old(self).toks(), old(self).at() + 1)
                && old(self).symbol_table@.contains_key(old(self).toks()[old(self).at() + 1].text)
                ==> r == Err::<Ast, FatalError>(FatalError::Redeclared) && final(self).diagnostic@
                == old(self).diagnostic@ && final(self).symbol_table@ == old(self).symbol_table@,
        decreases old(self).toks().len() - old(self).at(), 3int,
    {
        self.get_next_tok();
        let assign = self.expr();
        match self.symbol_table.insert(&assign) {
            Ok(_) => {},
            Err(e) => {
                return Err(e);
            },
        }
        let ghost st1 = self.symbol_table@;
        let ghost nm = assign.children@[0].val@;
        proof {
            assert(st1.dom().contains(nm));
        }
        let mut el_ast = Ast::new(AstType::Element);
        el_ast.children.push(Box::new(assign));
        let next = match self.element() {
            Ok(a) => a,
            Err(e) => {
                proof {
                    assert(st1.dom().contains(nm));
                    assert(self.symbol_table@.dom().contains(nm) && self.symbol_table@[nm]
                        == st1[nm]);
                }
                return Err(e);
            },
        };
        proof {
            assert(st1.dom().contains(nm));
            assert(self.symbol_table@.dom().contains(nm) && self.symbol_table@[nm] == st1[nm]);
        }
        if next.ast_type != AstType::Eof {
            el_ast.children.push(Box::new(next));
        }
        Ok(el_ast)
    }

    /// Parses a tag declaration: the element name, its optional attribute
    /// list, then either a nested element — braced, or announced by the
    /// lookahead `(` — or the contents, and finally the element that
    /// syntactically follows, chained as a trailing child.
    #[verifier::rlimit(100)]
    #[verifier::spinoff_prover]
    fn tag_element(&mut self) -> (r: Result<Ast, FatalError>)
        requires
            old(self).wf(),
            old(self).cur().kind == TokenType::Ident,
        ensures
            Self::steady(old(self), final(self)),
            r matches Ok(a) ==> a.ast_type == AstType::Element && a.children@.len() >= 1,
            old(self).cur().kind == TokenType::Ident && peek_kind(old(self).toks(), old(self).at())
                == TokenType::Eof ==> ({
                &&& r matches Ok(a) && a.ast_type == AstType::Element && a.children@.len() == 2
                    && is_leaf(&child_of(&a, 0), AstType::Ident, old(self).cur().text) && child_of(
                    &a,
                    1,
                ).ast_type == AstType::Eof
                &&& final(self).at() == old(self).at() + 1
                &&& Self::quiet(old(self), final(self))
            }),
            plain_tag_at(old(self).toks(), old(self).at()) ==> (r matches Ok(a)
                && is_plain_tag_node(&a, old(self).toks(), old(self).at())) && final(self).at()
                == old(self).at() + 5 && Self::quiet(old(self), final(self)),
            braced_tag_at(old(self).toks(), old(self).at()) ==> (r matches Ok(a)
                && is_braced_tag_node(&a, old(self).toks(), old(self).at())) && final(self).at()
                == old(self).at() + 11 && Self::quiet(old(self), final(self)),
            paired_tag_at(old(self).toks(), old(self).at()) && !has_error(old(self).diagnostic@)
                ==> (r matches Ok(a) && is_paired_tag_node(&a, old(self).toks(), old(self).at()))
                && final(self).at() == old(self).at() + 8 && Self::quiet(old(self), final(self)),
            var_tag_at(old(self).toks(), old(self).at()) ==> (r matches Ok(a) && is_var_tag_node(
                &a,
                old(self).toks(),
                old(self).at(),
            )) && final(self).at() == old(self).at() + 7 && Self::quiet(old(self), final(self)),
            include_tag_at(old(self).toks(), old(self).at()) ==> (r matches Ok(a)
                && is_include_tag_node(&a, old(self).toks(), old(self).at())) && final(self).at()
                == old(self).at() + 6 && Self::quiet(old(self), final(self)),
            old(self).at() + 2 < old(self).toks().len() && old(self).toks()[old(self).at()
                + 1].kind == TokenType::Arrow && old(self).toks()[old(self).at() + 2].kind
                != TokenType::LeftParen ==> has_error(final(self).diagnostic@),
            old(self).at() + 3 < old(self).toks().len() && old(self).toks()[old(self).at()
                + 1].kind == TokenType::LeftParen && old(self).toks()[old(self).at() + 2].kind
                == TokenType::Ident && old(self).toks()[old(self).at() + 3].kind
                != TokenType::Colon ==> has_error(final(self).diagnostic@),
            old(self).at() + 5 < old(self).toks().len() && old(self).toks()[old(self).at()
                + 1].kind == TokenType::LeftParen && old(self).toks()[old(self).at() + 2].kind
                == TokenType::Ident && old(self).toks()[old(self).at() + 3].kind
                == TokenType::Colon && old(self).toks()[old(self).at() + 4].kind
                == TokenType::Ident && old(self).toks()[old(self).at() + 5].kind
                == TokenType::Arrow ==> has_error(final(self).diagnostic@),
        decreases old(self).toks().len() - old(self).at(), 3int,
    {
        let mut el_ast = Ast::new(AstType::Element);
        let name = self.term();
        el_ast.children.push(Box::new(name));
        if self.curr_kind() == TokenType::LeftParen {
            let attrs = self.attr_list();
            el_ast.children.push(Box::new(attrs));
        }
        if self.curr_kind() == TokenType::LeftBrace {
            self.get_next_tok();
            let inner = match self.element() {
                Ok(a) => a,
                Err(e) => {
                    return Err(e);
                },
            };
            self.expect(TokenType::RightBrace);
            el_ast.children.push(Box::new(inner));
        } else if self.peek() == TokenType::LeftParen {
            let inner = match self.element() {
                Ok(a) => a,
                Err(e) => {
                    return Err(e);
                },
            };
            el_ast.children.push(Box::new(inner));
        } else {
            let c = self.contents();
            el_ast.children.push(Box::new(c));
        }
        let next = match self.element() {
            Ok(a) => a,
            Err(e) => {
                return Err(e);
            },
        };
        if next.ast_type != AstType::Eof {
            el_ast.children.push(Box::new(next));
        }
        Ok(el_ast)
    }

    /// Parses one element: a tag declaration, a conditional, a loop, an
    /// assignment, a braced element, or a file inclusion. At the end of
    /// input, and on a token that begins no element, it yields an `Eof`
    /// node and consumes nothing.
    #[verifier::rlimit(100)]
    fn element(&mut self) -> (r: Result<Ast, FatalError>)
        requires
            old(self).wf(),
        ensures
            Self::steady(old(self), final(self)),
            element_stuck_at(old(self).toks(), old(self).at()) ==> (r matches Ok(a) && a.ast_type
                == AstType::Eof) && final(self).at() == old(self).at() && Self::quiet(old(self), final(self)),
            old(self).cur().kind == TokenType::LeftBrace && old(self).toks()[old(self).at()
                + 1].kind == TokenType::RightBrace ==> (r matches Ok(a) && a.ast_type
                == AstType::Eof) && final(self).at() == old(self).at() + 2 && Self::quiet(
                old(self),
                final(self),
            ),
            old(self).cur().kind == TokenType::Ampersand && old(self).toks()[old(self).at()
                + 1].kind == TokenType::Ident ==> (r matches Ok(a) && is_leaf(
                &a,
                AstType::Include,
                old(self).toks()[old(self).at() + 1].text,
            )) && final(self).at() == old(self).at() + 2 && Self::quiet(old(self), final(self)),
            old(self).cur().kind == TokenType::Ident && !is_keyword_text(old(self).cur().text)
                && peek_kind(old(self).toks(), old(self).at()) == TokenType::Eof ==> ({
                &&& r matches Ok(a) && a.ast_type == AstType::Element && a.children@.len() == 2
                    && is_leaf(&child_of(&a, 0), AstType::Ident, old(self).cur().text) && child_of(
                    &a,
                    1,
                ).ast_type == AstType::Eof
                &&& final(self).at() == old(self).at() + 1
                &&& Self::quiet(old(self), final(self))
            }),
            plain_tag_at(old(self).toks(), old(self).at()) ==> (r matches Ok(a)
                && is_plain_tag_node(&a, old(self).toks(), old(self).at())) && final(self).at()
                == old(self).at() + 5 && Self::quiet(old(self), final(self)),
            braced_tag_at(old(self).toks(), old(self).at()) ==> (r matches Ok(a)
                && is_braced_tag_node(&a, old(self).toks(), old(self).at())) && final(self).at()
                == old(self).at() + 11 && Self::quiet(old(self), final(self)),
            paired_tag_at(old(self).toks(), old(self).at()) && !has_error(old(self).diagnostic@)
                ==> (r matches Ok(a) && is_paired_tag_node(&a, old(self).toks(), old(self).at()))
                && final(self).at() == old(self).at() + 8 && Self::quiet(old(self), final(self)),
            var_tag_at(old(self).toks(), old(self).at()) ==> (r matches Ok(a) && is_var_tag_node(
                &a,
                old(self).toks(),
                old(self).at(),
            )) && final(self).at() == old(self).at() + 7 && Self::quiet(old(self), final(self)),
            include_tag_at(old(self).toks(), old(self).at()) ==> (r matches Ok(a)
                && is_include_tag_node(&a, old(self).toks(), old(self).at())) && final(self).at()
                == old(self).at() + 6 && Self::quiet(old(self), final(self)),
            old(self).cur().kind == TokenType::Ident && old(self).cur().text == "if"@ ==> (r
                matches Ok(a) ==> a.ast_type == AstType::IfExpr),
            if_simple_at(old(self).toks(), old(self).at()) ==> (r matches Ok(a) ==> a.children@.len()
                >= 1 && is_cmp_node(&child_of(&a, 0), old(self).toks(), old(self).at() + 1)),
            if_closed_at(old(self).toks(), old(self).at()) ==> (r matches Ok(a)
                && is_closed_if_node(&a, old(self).toks(), old(self).at())) && final(self).at()
                == old(self).at() + 7 && Self::quiet(old(self), final(self)),
            let_decl_at(old(self).toks(), old(self).at()) && !old(self).symbol_table@.contains_key(
                old(self).toks()[old(self).at() + 1].text,
            ) ==> ({
                &&& (r matches Ok(a) ==> a.ast_type == AstType::Element && a.children@.len() >= 1
                    && is_assign_node(&child_of(&a, 0), old(self).toks(), old(self).at() + 1))
                &&& final(self).at() > old(self).at()
                &&& final(self).symbol_table@.contains_key(
                    old(self).toks()[old(self).at() + 1].text,
                )
                &&& crate::symbol_table::symbol_is(
                    final(self).symbol_table@[old(self).toks()[old(self).at() + 1].text],
                    old(self).toks()[old(self).at() + 1].text,
                    old(self).toks()[old(self).at() + 3].text,
                    old(self).toks()[old(self).at() + 5].text,
                    crate::symbol_table::Scope::Global,
                )
            }),
            let_elem_at(old(self).toks(), old(self).at()) && !old(self).symbol_table@.contains_key(
                old(self).toks()[old(self).at() + 1].text,
            ) ==> ({
                &&& r matches Ok(a) && a.ast_type == AstType::Element && a.children@.len() == 1
                    && is_assign_node(&child_of(&a, 0), old(self).toks(), old(self).at() + 1)
                &&& final(self).at() == old(self).at() + 6
                &&& final(self).diagnostic@ == old(self).diagnostic@
                &&& crate::symbol_table::symbol_is(
                    final(self).symbol_table@[old(self).toks()[old(self).at() + 1].text],
                    old(self).toks()[old(self).at() + 1].text,
                    old(self).toks()[old(self).at() + 3].text,
                    old(self).toks()[old(self).at() + 5].text,
                    crate::symbol_table::Scope::Global,
                )
            }),
            let_decl_at(old(self).toks(), old(self).at()) && old(self).symbol_table@.contains_key(
                old(self).toks()[old(self).at() + 1].text,
            ) ==> r == Err::<Ast, FatalError>(FatalError::Redeclared) && final(self).diagnostic@
                == old(self).diagnostic@ && final(self).symbol_table@ == old(self).symbol_table@,
            reported_error_at(old(self).toks(), old(self).at()) ==> has_error(
                final(self).diagnostic@,
            ),
            closed_element_at(old(self).toks(), old(self).at()) && !has_error(
                old(self).diagnostic@,
            ) ==> (r matches Ok(a) && is_closed_element_node(&a, old(self).toks(), old(self).at()))
                && final(self).at() == closed_element_end(old(self).toks(), old(self).at())
                && Self::quiet(old(self), final(self)),
        decreases old(self).toks().len() - old(self).at(), 4int,
    {
        proof {
            // The reserved words are told apart by their characters; the
            // two of equal length need a differing position exhibited.
            reveal_strlit("if");
            reveal_strlit("for");
            reveal_strlit("let");
            assert("if"@ != "let"@) by {
                assert("if"@.len() == 2);
                assert("let"@.len() == 3);
            }
            assert("if"@ != "for"@) by {
                assert("if"@.len() == 2);
                assert("for"@.len() == 3);
            }
            assert("for"@ != "let"@) by {
                assert("for"@[0] == 'f');
                assert("let"@[0] == 'l');
            }
        }
        let k = self.curr_kind();
        match k {
            TokenType::Ident => {
                let v = self.curr_val();
                let kw_if: String = "if".to_owned();
                let kw_for: String = "for".to_owned();
                let kw_let: String = "let".to_owned();
                if v == kw_if {
                    self.if_expr()
                } else if v == kw_for {
                    self.for_expr()
                } else if v == kw_let {
                    self.assign_expr()
                } else {
                    self.tag_element()
                }
            },
            TokenType::LeftBrace => {
                self.get_next_tok();
                let inner = match self.element() {
                    Ok(a) => a,
                    Err(e) => {
                        return Err(e);
                    },
                };
                self.expect(TokenType::RightBrace);
                Ok(inner)
            },
            TokenType::Ampersand => {
                self.get_next_tok();
                let v = self.curr_val();
                let include_ast = Ast::new_from_value(AstType::Include, &v);
                self.get_next_tok();
                Ok(include_ast)
            },
            _ => Ok(Ast::new(AstType::Eof)),
        }
    }

}

/// A short printable name for each token kind, used in messages.
fn token_type_name(t: TokenType) -> (r: &'static str) {
    match t {
        TokenType::Ident => "identifier",
        TokenType::Number => "number",
        TokenType::LeftParen => "'('",
        TokenType::RightParen => "')'",
        TokenType::LeftBrace => "'{'",
        TokenType::RightBrace => "'}'",
        TokenType::Colon => "':'",
        TokenType::Arrow => "'->'",
        TokenType::Plus => "'+'",
        TokenType::Minus => "'-'",
        TokenType::Gt => "'>'",
        TokenType::Lt => "'<'",
        TokenType::GtEquals => "'>='",
        TokenType::LtEquals => "'<='",
        TokenType::NotEquals => "'!='",
        TokenType::EqualsEquals => "'=='",
        TokenType::Equals => "'='",
        TokenType::Ampersand => "'&'",
        TokenType::Percent => "'%'",
        TokenType::Eof => "end of input",
    }
}

} // verus!
