use tank::ast::{Ast, AstType};
use tank::symbol_table::{FatalError, Scope, SymbolTable};

fn leaf(t: AstType, val: &str) -> Ast {
    Ast { ast_type: t, val: val.to_owned(), var_type: None, children: Vec::new() }
}

fn assign_node(name: &str, ty: Option<&str>, value: &str) -> Ast {
    let mut ident = leaf(AstType::Ident, name);
    ident.var_type = ty.map(|t| t.to_owned());
    Ast {
        ast_type: AstType::AssignExpr,
        val: String::new(),
        var_type: None,
        children: vec![Box::new(ident), Box::new(leaf(AstType::Number, value))],
    }
}

#[test]
fn test_new_table_is_empty() {
    let table = SymbolTable::new();
    assert!(table.get(&"anything".to_owned()).is_none());
}

#[test]
fn test_from_existing_map_seeds_globals() {
    let pairs = vec![
        ("siteName".to_owned(), "tank".to_owned()),
        ("author".to_owned(), "someone".to_owned()),
    ];
    let table = SymbolTable::from_existing_map(&pairs);

    let sym = table.get(&"siteName".to_owned()).expect("siteName should be present");
    assert_eq!(sym.name, "siteName".to_owned());
    assert_eq!(sym.sym_type, "String".to_owned());
    assert_eq!(sym.val, "tank".to_owned());
    assert_eq!(sym.scope, Scope::Global);

    let other = table.get(&"author".to_owned()).expect("author should be present");
    assert_eq!(other.val, "someone".to_owned());

    assert!(table.get(&"missing".to_owned()).is_none());
}

#[test]
fn test_insert_valid_assignment() {
    let mut table = SymbolTable::new();
    let node = assign_node("x", Some("Int"), "10");

    assert_eq!(table.insert(&node), Ok(()));

    let sym = table.get(&"x".to_owned()).expect("x should be present");
    assert_eq!(sym.sym_type, "Int".to_owned());
    assert_eq!(sym.val, "10".to_owned());
    assert_eq!(sym.scope, Scope::Global);
}

#[test]
fn test_insert_rejects_wrong_node_kind() {
    let mut table = SymbolTable::new();
    let node = leaf(AstType::Ident, "x");

    assert_eq!(table.insert(&node), Err(FatalError::InvalidNode));
}

#[test]
fn test_insert_rejects_missing_children() {
    let mut table = SymbolTable::new();
    let node = Ast {
        ast_type: AstType::AssignExpr,
        val: String::new(),
        var_type: None,
        children: Vec::new(),
    };

    assert_eq!(table.insert(&node), Err(FatalError::MalformedNode));
}

#[test]
fn test_insert_rejects_missing_type_label() {
    let mut table = SymbolTable::new();
    let node = assign_node("x", None, "10");

    assert_eq!(table.insert(&node), Err(FatalError::MissingType));
}

#[test]
fn test_insert_rejects_redeclaration() {
    let mut table = SymbolTable::new();
    assert_eq!(table.insert(&assign_node("x", Some("Int"), "10")), Ok(()));
    assert_eq!(table.insert(&assign_node("x", Some("Int"), "12")), Err(FatalError::Redeclared));

    let sym = table.get(&"x".to_owned()).expect("x should still be present");
    assert_eq!(sym.val, "10".to_owned());
}

#[test]
fn test_insert_for_id_valid() {
    let mut table = SymbolTable::new();
    let mut ident = leaf(AstType::Ident, "item");
    ident.var_type = Some("Int".to_owned());

    assert_eq!(table.insert_for_id(&ident), Ok(()));

    let sym = table.get(&"item".to_owned()).expect("item should be present");
    assert_eq!(sym.sym_type, "Int".to_owned());
    assert_eq!(sym.val, "item".to_owned());
    assert_eq!(sym.scope, Scope::ForLocal);
}

#[test]
fn test_insert_for_id_rejects_wrong_node_kind() {
    let mut table = SymbolTable::new();
    let node = leaf(AstType::Number, "10");

    assert_eq!(table.insert_for_id(&node), Err(FatalError::InvalidNode));
}

#[test]
fn test_insert_for_id_rejects_missing_type_label() {
    let mut table = SymbolTable::new();
    let node = leaf(AstType::Ident, "item");

    assert_eq!(table.insert_for_id(&node), Err(FatalError::MissingType));
}

#[test]
fn test_flat_namespace_spans_both_scopes() {
    let mut table = SymbolTable::new();
    let mut ident = leaf(AstType::Ident, "x");
    ident.var_type = Some("Int".to_owned());
    assert_eq!(table.insert_for_id(&ident), Ok(()));

    assert_eq!(table.insert(&assign_node("x", Some("Int"), "10")), Err(FatalError::Redeclared));
}
