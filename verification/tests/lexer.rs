use tank::lexer::{is_op, tokenize};
use tank::token::TokenType;

#[test]
fn test_tokenize_words_and_numbers() {
    let toks = tokenize("div divContents x10 10");

    assert_eq!(toks.len(), 5);
    assert_eq!(toks[0].tok_type, TokenType::Ident);
    assert_eq!(toks[0].val, "div".to_owned());
    assert_eq!(toks[1].tok_type, TokenType::Ident);
    assert_eq!(toks[1].val, "divContents".to_owned());
    assert_eq!(toks[2].tok_type, TokenType::Ident);
    assert_eq!(toks[2].val, "x10".to_owned());
    assert_eq!(toks[3].tok_type, TokenType::Number);
    assert_eq!(toks[3].val, "10".to_owned());
    assert_eq!(toks[4].tok_type, TokenType::Eof);
    assert_eq!(toks[4].val, "".to_owned());
}

#[test]
fn test_tokenize_punctuation() {
    let toks = tokenize("( ) { } : & % + = ->");

    let kinds: Vec<TokenType> = toks.iter().map(|t| t.tok_type).collect();
    assert_eq!(
        kinds,
        vec![
            TokenType::LeftParen,
            TokenType::RightParen,
            TokenType::LeftBrace,
            TokenType::RightBrace,
            TokenType::Colon,
            TokenType::Ampersand,
            TokenType::Percent,
            TokenType::Plus,
            TokenType::Equals,
            TokenType::Arrow,
            TokenType::Eof,
        ]
    );
}

#[test]
fn test_tokenize_comparison_operators() {
    let toks = tokenize("> < >= <= != == - ");

    let kinds: Vec<TokenType> = toks.iter().map(|t| t.tok_type).collect();
    assert_eq!(
        kinds,
        vec![
            TokenType::Gt,
            TokenType::Lt,
            TokenType::GtEquals,
            TokenType::LtEquals,
            TokenType::NotEquals,
            TokenType::EqualsEquals,
            TokenType::Minus,
            TokenType::Eof,
        ]
    );
    assert_eq!(toks[2].val, ">=".to_owned());
    assert_eq!(toks[5].val, "==".to_owned());
}

#[test]
fn test_tokenize_adjacent_punctuation() {
    let toks = tokenize("div()->x");

    let kinds: Vec<TokenType> = toks.iter().map(|t| t.tok_type).collect();
    assert_eq!(
        kinds,
        vec![
            TokenType::Ident,
            TokenType::LeftParen,
            TokenType::RightParen,
            TokenType::Arrow,
            TokenType::Ident,
            TokenType::Eof,
        ]
    );
}

#[test]
fn test_tokenize_skips_comments() {
    let toks = tokenize("a // a comment with words ->\nb");

    assert_eq!(toks.len(), 3);
    assert_eq!(toks[0].val, "a".to_owned());
    assert_eq!(toks[1].val, "b".to_owned());
    assert_eq!(toks[2].tok_type, TokenType::Eof);
}

#[test]
fn test_tokenize_empty_input_is_end_marker_alone() {
    let toks = tokenize("");
    assert_eq!(toks.len(), 1);
    assert_eq!(toks[0].tok_type, TokenType::Eof);

    let blank = tokenize(" \t\r\n ");
    assert_eq!(blank.len(), 1);
    assert_eq!(blank[0].tok_type, TokenType::Eof);
}

#[test]
fn test_tokenize_keywords_are_plain_idents() {
    let toks = tokenize("if for let in");

    assert_eq!(toks.len(), 5);
    for t in toks.iter().take(4) {
        assert_eq!(t.tok_type, TokenType::Ident);
    }
    assert_eq!(toks[0].val, "if".to_owned());
    assert_eq!(toks[3].val, "in".to_owned());
}

#[test]
fn test_tokenize_is_deterministic() {
    let text = "if x >= 10 { div(a: b) -> %v% } // tail";
    assert_eq!(tokenize(text), tokenize(text));
}

#[test]
fn test_is_op_classifies_comparisons() {
    assert!(is_op(&TokenType::Gt));
    assert!(is_op(&TokenType::Lt));
    assert!(is_op(&TokenType::GtEquals));
    assert!(is_op(&TokenType::LtEquals));
    assert!(is_op(&TokenType::NotEquals));
    assert!(is_op(&TokenType::EqualsEquals));
    assert!(!is_op(&TokenType::Equals));
    assert!(!is_op(&TokenType::Plus));
    assert!(!is_op(&TokenType::Ident));
    assert!(!is_op(&TokenType::Eof));
}
