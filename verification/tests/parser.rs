use tank::ast::AstType;
use tank::parser::Parser;
use tank::symbol_table::{FatalError, Scope, SymbolTable};

fn setup_parser(template: &str) -> Parser {
    let symbol_table = SymbolTable::new();
    Parser::new(template.to_owned(), symbol_table)
}

#[test]
fn test_parse_empty_file() {
    let mut parser = setup_parser("");

    let _ = parser.parse();

    assert_eq!(parser.diagnostic.is_err(), true);
}

#[test]
fn test_parse_whitespace_only_file() {
    let mut parser = setup_parser("   \n\t  \r\n");

    let _ = parser.parse();

    assert_eq!(parser.diagnostic.is_err(), true);
}

#[test]
fn test_parse_comment_only_file() {
    let mut parser = setup_parser("// nothing but a comment\n");

    let _ = parser.parse();

    assert_eq!(parser.diagnostic.is_err(), true);
}

#[test]
fn test_parse_if_expr_no_left_brace() {
    let mut parser = setup_parser("if x > 10\n    x\n}\n");

    let _ = parser.parse();

    assert_eq!(parser.diagnostic.is_err(), true);
}

#[test]
fn test_parse_if_expr_no_right_brace() {
    let mut parser = setup_parser("if x > 10 {\n    x\n");

    let _ = parser.parse();

    assert_eq!(parser.diagnostic.is_err(), true);
}

#[test]
fn test_parse_if_valid_expr() {
    let mut parser = setup_parser("if x > 10 {\n}\n");

    let _ = parser.parse();

    assert_eq!(parser.diagnostic.is_err(), false);

    let ast = parser.root;
    assert_eq!(ast.ast_type, AstType::Template);
    assert_eq!(ast.children.len(), 2);

    let if_ast = &ast.children[0];
    assert_eq!(if_ast.ast_type, AstType::IfExpr);
    assert_eq!(if_ast.children.len(), 2);

    let if_expr_ast = &if_ast.children[0];
    assert_eq!(if_expr_ast.children.len(), 2);

    let first_term = &if_expr_ast.children[0];
    let second_term = &if_expr_ast.children[1];
    assert_eq!(first_term.ast_type, AstType::Ident);
    assert_eq!(first_term.val, "x".to_owned());
    assert_eq!(second_term.ast_type, AstType::Number);
    assert_eq!(second_term.val, "10".to_owned());
}

#[test]
fn test_parse_if_with_following_element() {
    let mut parser = setup_parser("if x > 10 { } nextElem");

    let _ = parser.parse();

    assert_eq!(parser.diagnostic.is_err(), false);

    let ast = parser.root;
    assert_eq!(ast.ast_type, AstType::Template);
    assert_eq!(ast.children.len(), 2);

    let if_ast = &ast.children[0];
    assert_eq!(if_ast.ast_type, AstType::IfExpr);
    assert_eq!(if_ast.children.len(), 3);

    let cmp = &if_ast.children[0];
    assert_eq!(cmp.ast_type, AstType::Gt);
    assert_eq!(cmp.children[0].val, "x".to_owned());
    assert_eq!(cmp.children[1].val, "10".to_owned());

    let next = &if_ast.children[2];
    assert_eq!(next.ast_type, AstType::Element);
    assert_eq!(next.children[0].val, "nextElem".to_owned());
}

#[test]
fn test_parse_if_without_comparison() {
    let mut parser = setup_parser("if x { }");

    let _ = parser.parse();

    assert_eq!(parser.diagnostic.is_err(), true);
}

#[test]
fn test_parse_element_no_left_paren() {
    let mut parser = setup_parser("div -> divContents\n");

    let _ = parser.parse();

    assert_eq!(parser.diagnostic.is_err(), true);
}

#[test]
fn test_parse_element_no_right_paren() {
    let mut parser = setup_parser("div(class: className -> divContents\n");

    let _ = parser.parse();

    assert_eq!(parser.diagnostic.is_err(), true);
}

#[test]
fn test_parse_element_no_attribute_list() {
    let mut parser = setup_parser("div() -> divContents\n");

    let _ = parser.parse();

    let ast = parser.root;
    assert_eq!(ast.children.len(), 2);

    let el_ast = &ast.children[0];
    assert_eq!(el_ast.ast_type, AstType::Element);
    assert_eq!(el_ast.children.len(), 3);

    let el_name_ast = &el_ast.children[0];
    assert_eq!(el_name_ast.ast_type, AstType::ElementName);
    assert_eq!(el_name_ast.val, "div".to_owned());

    let attr_list_ast = &el_ast.children[1];
    assert_eq!(attr_list_ast.ast_type, AstType::AttrList);
    assert_eq!(attr_list_ast.children.len(), 0);

    let el_contents_ast = &el_ast.children[2];
    assert_eq!(el_contents_ast.ast_type, AstType::Contents);
    assert_eq!(el_contents_ast.children.len(), 1);
    assert_eq!(el_contents_ast.children[0].val, "divContents".to_owned());
}

#[test]
fn test_parse_nested_elements() {
    let mut parser = setup_parser("div() -> p() -> pContents\n");

    let _ = parser.parse();

    let ast = parser.root;
    let el_ast = &ast.children[0];
    assert_eq!(el_ast.ast_type, AstType::Element);
    assert_eq!(el_ast.children.len(), 3);

    let first_element = &el_ast.children[0];
    assert_eq!(first_element.ast_type, AstType::ElementName);
    assert_eq!(first_element.val, "div".to_owned());

    let element_contents = &el_ast.children[2];
    assert_eq!(element_contents.ast_type, AstType::Element);
    assert_eq!(element_contents.children.len(), 3);

    let nested_element = &element_contents.children[0];
    assert_eq!(nested_element.ast_type, AstType::ElementName);
    assert_eq!(nested_element.val, "p".to_owned());

    let nested_element_contents = &element_contents.children[2];
    assert_eq!(nested_element_contents.ast_type, AstType::Contents);
    assert_eq!(nested_element_contents.children.len(), 1);
    assert_eq!(nested_element_contents.children[0].val, "pContents".to_owned());
}

#[test]
fn test_parse_nested_braced_element() {
    let mut parser = setup_parser("div() -> { p() -> pContents }\n");

    let _ = parser.parse();

    assert_eq!(parser.diagnostic.is_err(), false);

    let ast = parser.root;
    let el_ast = &ast.children[0];
    assert_eq!(el_ast.ast_type, AstType::Element);
    assert_eq!(el_ast.children.len(), 3);
    assert_eq!(el_ast.children[0].val, "div".to_owned());

    let inner = &el_ast.children[2];
    assert_eq!(inner.ast_type, AstType::Element);
    assert_eq!(inner.children[0].val, "p".to_owned());

    let inner_contents = &inner.children[2];
    assert_eq!(inner_contents.ast_type, AstType::Contents);
    assert_eq!(inner_contents.children[0].val, "pContents".to_owned());
}

#[test]
fn test_parse_element_with_attribute_list_missing_colon() {
    let mut parser = setup_parser("div(class className) -> divContents\n");

    let _ = parser.parse();

    assert_eq!(parser.diagnostic.is_err(), true);
}

#[test]
fn test_parse_element_with_valid_attribute_list() {
    let mut parser = setup_parser("div(class: className) -> divContents\n");

    let _ = parser.parse();

    let ast = parser.root;
    assert!(ast.children.len() > 0);

    let first_element = &ast.children[0];
    assert_eq!(first_element.ast_type, AstType::Element);
    assert!(first_element.children.len() > 1);

    let element_name = &first_element.children[0];
    assert_eq!(element_name.ast_type, AstType::ElementName);
    assert_eq!(element_name.val, "div".to_owned());

    let attr_list = &first_element.children[1];
    assert_eq!(attr_list.ast_type, AstType::AttrList);
    assert_eq!(attr_list.children.len(), 2);

    let attr_name = &attr_list.children[0];
    let attr_val = &attr_list.children[1];

    assert_eq!(attr_name.val, "class".to_owned());
    assert_eq!(attr_val.val, "className".to_owned());
}

#[test]
fn test_parse_assign_valid() {
    let mut parser = setup_parser("let x: Int = 10\n");

    let _ = parser.parse();

    let element = &parser.root.children[0];
    assert_eq!(element.ast_type, AstType::Element);

    let assign = &element.children[0];
    assert_eq!(assign.ast_type, AstType::AssignExpr);
    assert_eq!(assign.children.len(), 2);

    let ident = &assign.children[0];
    let val = &assign.children[1];

    assert_eq!(ident.val, "x".to_owned());
    assert_eq!(val.val, "10".to_owned());
}

#[test]
fn test_parse_assign_registers_global_symbol() {
    let mut parser = setup_parser("let x: Int = 10\n");

    let result = parser.parse();
    assert!(result.is_ok());

    let sym = parser.symbol_table.get(&"x".to_owned()).expect("x should be declared");
    assert_eq!(sym.name, "x".to_owned());
    assert_eq!(sym.sym_type, "Int".to_owned());
    assert_eq!(sym.val, "10".to_owned());
    assert_eq!(sym.scope, Scope::Global);
}

#[test]
fn test_parse_assign_redeclared_is_fatal() {
    let mut parser = setup_parser("let x: Int = 10 let x: Int = 12\n");

    let result = parser.parse();

    assert_eq!(result, Err(FatalError::Redeclared));
}

#[test]
fn test_parse_assign_no_type_is_fatal() {
    let mut parser = setup_parser("let x = 10\n");

    let result = parser.parse();

    assert!(result.is_err());
}

#[test]
fn test_parse_for_expr_valid() {
    let mut parser = setup_parser("for item: Int in items {\n    div() -> itemContents\n}\n");

    let result = parser.parse();
    assert!(result.is_ok());
    assert_eq!(parser.diagnostic.is_err(), false);

    let for_ast = &parser.root.children[0];
    assert_eq!(for_ast.ast_type, AstType::ForExpr);
    assert_eq!(for_ast.children.len(), 3);

    let variable = &for_ast.children[0];
    assert_eq!(variable.ast_type, AstType::Ident);
    assert_eq!(variable.val, "item".to_owned());
    assert_eq!(variable.var_type, Some("Int".to_owned()));

    let collection = &for_ast.children[1];
    assert_eq!(collection.ast_type, AstType::Ident);
    assert_eq!(collection.val, "items".to_owned());

    let body = &for_ast.children[2];
    assert_eq!(body.ast_type, AstType::Element);
}

#[test]
fn test_parse_for_expr_registers_local_symbol() {
    let mut parser = setup_parser("for item: Int in items {\n    div() -> itemContents\n}\n");

    let result = parser.parse();
    assert!(result.is_ok());

    let sym = parser.symbol_table.get(&"item".to_owned()).expect("item should be declared");
    assert_eq!(sym.sym_type, "Int".to_owned());
    assert_eq!(sym.val, "item".to_owned());
    assert_eq!(sym.scope, Scope::ForLocal);
}

#[test]
fn test_parse_variable_value() {
    let mut parser = setup_parser("p() -> %myVar%\n");

    let _ = parser.parse();

    let element = &parser.root.children[0];
    assert_eq!(element.ast_type, AstType::Element);

    let var = &element.children[2];
    assert_eq!(var.ast_type, AstType::VariableValue);
    assert_eq!(var.val, "myVar".to_owned());
}

#[test]
fn test_parse_variable_value_between_words() {
    let mut parser = setup_parser("p() -> hello %myVar% world\n");

    let _ = parser.parse();

    let element = &parser.root.children[0];
    let contents = &element.children[2];
    assert_eq!(contents.ast_type, AstType::Contents);
    assert_eq!(contents.children.len(), 3);
    assert_eq!(contents.children[0].ast_type, AstType::Ident);
    assert_eq!(contents.children[0].val, "hello".to_owned());
    assert_eq!(contents.children[1].ast_type, AstType::VariableValue);
    assert_eq!(contents.children[1].val, "myVar".to_owned());
    assert_eq!(contents.children[2].ast_type, AstType::Ident);
    assert_eq!(contents.children[2].val, "world".to_owned());
}

#[test]
fn test_parse_include_no_contents() {
    let mut parser = setup_parser("&includedFile\n");

    let _ = parser.parse();

    let include_ast = &parser.root.children[0];
    assert_eq!(include_ast.ast_type, AstType::Include);
    assert_eq!(include_ast.val, "includedFile".to_owned());
}

#[test]
fn test_parse_include_in_contents() {
    let mut parser = setup_parser("div() -> &includedFile\n");

    let _ = parser.parse();

    let element = &parser.root.children[0];
    assert_eq!(element.ast_type, AstType::Element);

    let include_ast = &element.children[2];
    assert_eq!(include_ast.ast_type, AstType::Include);
    assert_eq!(include_ast.val, "includedFile".to_owned());
}

#[test]
fn test_parse_include_between_elements() {
    let mut parser = setup_parser("for x: Int in xs { } &includedFile for y: Int in ys { }\n");

    let result = parser.parse();
    assert!(result.is_ok());

    let ast = parser.root;
    assert_eq!(ast.children.len(), 4);
    assert_eq!(ast.children[0].ast_type, AstType::ForExpr);
    assert_eq!(ast.children[1].ast_type, AstType::Include);
    assert_eq!(ast.children[1].val, "includedFile".to_owned());
    assert_eq!(ast.children[2].ast_type, AstType::ForExpr);
    assert_eq!(ast.children[3].ast_type, AstType::Eof);
}

#[test]
fn test_parse_arithmetic_in_if() {
    let mut parser = setup_parser("if x + 1 > 10 { }");

    let _ = parser.parse();

    assert_eq!(parser.diagnostic.is_err(), false);

    let if_ast = &parser.root.children[0];
    assert_eq!(if_ast.ast_type, AstType::IfExpr);

    let cmp = &if_ast.children[0];
    assert_eq!(cmp.ast_type, AstType::Gt);

    let sum = &cmp.children[0];
    assert_eq!(sum.ast_type, AstType::Plus);
    assert_eq!(sum.children.len(), 2);
    assert_eq!(sum.children[0].val, "x".to_owned());
    assert_eq!(sum.children[1].val, "1".to_owned());

    assert_eq!(cmp.children[1].val, "10".to_owned());
}

#[test]
fn test_parse_parenthesized_term_in_if() {
    let mut parser = setup_parser("if (x) > 10 { }");

    let _ = parser.parse();

    assert_eq!(parser.diagnostic.is_err(), false);

    let if_ast = &parser.root.children[0];
    assert_eq!(if_ast.ast_type, AstType::IfExpr);

    let cmp = &if_ast.children[0];
    assert_eq!(cmp.ast_type, AstType::Gt);
    assert_eq!(cmp.children[0].ast_type, AstType::Ident);
    assert_eq!(cmp.children[0].val, "x".to_owned());
}

#[test]
fn test_parse_element_with_two_attribute_pairs() {
    let mut parser = setup_parser("div(class: wide id: main) -> divContents\n");

    let _ = parser.parse();

    assert_eq!(parser.diagnostic.is_err(), false);

    let first_element = &parser.root.children[0];
    let attr_list = &first_element.children[1];
    assert_eq!(attr_list.ast_type, AstType::AttrList);
    assert_eq!(attr_list.children.len(), 4);
    assert_eq!(attr_list.children[0].val, "class".to_owned());
    assert_eq!(attr_list.children[1].val, "wide".to_owned());
    assert_eq!(attr_list.children[2].val, "id".to_owned());
    assert_eq!(attr_list.children[3].val, "main".to_owned());
}

#[test]
fn test_parse_arithmetic_chain_is_left_associative() {
    let mut parser = setup_parser("if x + 1 - y > 10 { }");

    let _ = parser.parse();

    assert_eq!(parser.diagnostic.is_err(), false);

    let cmp = &parser.root.children[0].children[0];
    assert_eq!(cmp.ast_type, AstType::Gt);

    let outer = &cmp.children[0];
    assert_eq!(outer.ast_type, AstType::Minus);
    assert_eq!(outer.children[1].val, "y".to_owned());

    let inner = &outer.children[0];
    assert_eq!(inner.ast_type, AstType::Plus);
    assert_eq!(inner.children[0].val, "x".to_owned());
    assert_eq!(inner.children[1].val, "1".to_owned());
}

#[test]
fn test_parse_assign_followed_by_element() {
    let mut parser = setup_parser("let x: Int = 10 div() -> divContents\n");

    let result = parser.parse();
    assert!(result.is_ok());

    let sym = parser.symbol_table.get(&"x".to_owned()).expect("x should be declared");
    assert_eq!(sym.sym_type, "Int".to_owned());
    assert_eq!(sym.val, "10".to_owned());
    assert_eq!(sym.scope, Scope::Global);

    let element = &parser.root.children[0];
    assert_eq!(element.ast_type, AstType::Element);
    let assign = &element.children[0];
    assert_eq!(assign.ast_type, AstType::AssignExpr);
    assert_eq!(assign.children.len(), 2);
    assert_eq!(assign.children[0].val, "x".to_owned());
    assert_eq!(assign.children[1].val, "10".to_owned());

    let div = &element.children[1];
    assert_eq!(div.ast_type, AstType::Element);
    assert_eq!(div.children[0].val, "div".to_owned());
}

#[test]
fn test_parse_is_deterministic() {
    let template = "let greeting: String = hello\nif x >= 10 {\n    div(class: wide) -> %greeting% world\n}\n";

    let mut first = setup_parser(template);
    let r1 = first.parse();
    let mut second = setup_parser(template);
    let r2 = second.parse();

    assert_eq!(r1, r2);
    assert_eq!(first.root, second.root);
    assert_eq!(first.diagnostic.messages(), second.diagnostic.messages());
    assert_eq!(
        first.symbol_table.get(&"greeting".to_owned()),
        second.symbol_table.get(&"greeting".to_owned())
    );
}
