use tank::diagnostic::{ParseDiagnostic, Severity};
use tank::token::{Token, TokenType};

#[test]
fn test_new_collection_has_no_messages() {
    let d = ParseDiagnostic::new();
    assert!(!d.has_messages());
    assert!(!d.is_err());
}

#[test]
fn test_new_err_is_an_error() {
    let mut d = ParseDiagnostic::new();
    d.new_err("something went wrong");

    assert!(d.has_messages());
    assert!(d.is_err());
    assert_eq!(d.messages().len(), 1);
    assert_eq!(d.messages()[0].severity, Severity::Error);
    assert_eq!(d.messages()[0].text, "something went wrong".to_owned());
    assert!(d.messages()[0].token.is_none());
}

#[test]
fn test_warnings_alone_never_block() {
    let mut d = ParseDiagnostic::new();
    d.new_warning("just a warning");
    d.new_warning("another warning");

    assert!(d.has_messages());
    assert!(!d.is_err());
}

#[test]
fn test_parse_err_cites_the_offending_token() {
    let mut d = ParseDiagnostic::new();
    let tok = Token { tok_type: TokenType::Colon, val: ":".to_owned() };
    d.parse_err("Expected an identifier", &tok);

    assert!(d.is_err());
    let msg = &d.messages()[0];
    assert_eq!(msg.severity, Severity::Error);
    assert_eq!(msg.text, "Expected an identifier".to_owned());
    let cited = msg.token.as_ref().expect("the token should be cited");
    assert_eq!(cited.tok_type, TokenType::Colon);
    assert_eq!(cited.val, ":".to_owned());
}

#[test]
fn test_messages_keep_discovery_order() {
    let mut d = ParseDiagnostic::new();
    d.new_warning("first");
    d.new_err("second");
    d.new_err("third");

    let texts: Vec<String> = d.messages().iter().map(|m| m.text.clone()).collect();
    assert_eq!(texts, vec!["first".to_owned(), "second".to_owned(), "third".to_owned()]);
}
