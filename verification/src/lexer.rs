//! Lexical analysis: turns the raw template text into a sequence of tokens.
//!
//! The whole scan is specified by the spec function [`tokens_spec`]: for a
//! given character sequence it gives the exact token stream, ending in a
//! single `Eof` token. The executable [`tokenize`] is proved to return that
//! stream, so two scans of identical input give identical tokens.
//!
//! Whitespace and `//` line comments are skipped, as is any character that
//! starts no token. Keyword-shaped words (`if`, `for`, `let`, `in`) are lexed
//! as plain identifiers; telling keywords apart is the parser's business.

use vstd::prelude::*;

use crate::token::{Token, TokenModel, TokenType};

verus! {

/// Blank characters that separate tokens.
pub open spec fn is_space_char(c: char) -> bool {
    c == ' ' || c == '\t' || c == '\n' || c == '\r'
}

/// Characters that may open an identifier.
pub open spec fn is_ident_start_char(c: char) -> bool {
    ('a' <= c && c <= 'z') || ('A' <= c && c <= 'Z') || c == '_'
}

/// Decimal digits.
pub open spec fn is_digit_char(c: char) -> bool {
    '0' <= c && c <= '9'
}

/// Characters that may continue an identifier.
pub open spec fn is_ident_char(c: char) -> bool {
    is_ident_start_char(c) || is_digit_char(c)
}

/// First position at or after `i` that no longer continues an identifier.
pub open spec fn ident_end(s: Seq<char>, i: int) -> int
    decreases s.len() - i when 0 <= i <= s.len()
{
    if i < s.len() && is_ident_char(s[i]) {
        ident_end(s, i + 1)
    } else {
        i
    }
}

/// First position at or after `i` that is not a digit.
pub open spec fn num_end(s: Seq<char>, i: int) -> int
    decreases s.len() - i when 0 <= i <= s.len()
{
    if i < s.len() && is_digit_char(s[i]) {
        num_end(s, i + 1)
    } else {
        i
    }
}

/// First position at or after `i` holding a line break, or the end of input.
pub open spec fn line_end(s: Seq<char>, i: int) -> int
    decreases s.len() - i when 0 <= i <= s.len()
{
    if i < s.len() && s[i] != '\n' {
        line_end(s, i + 1)
    } else {
        i
    }
}

pub proof fn lemma_ident_end_bounds(s: Seq<char>, i: int)
    requires
        0 <= i <= s.len(),
    ensures
        i <= ident_end(s, i) <= s.len(),
    decreases s.len() - i,
{
    if i < s.len() && is_ident_char(s[i]) {
        lemma_ident_end_bounds(s, i + 1);
    }
}

pub proof fn lemma_num_end_bounds(s: Seq<char>, i: int)
    requires
        0 <= i <= s.len(),
    ensures
        i <= num_end(s, i) <= s.len(),
    decreases s.len() - i,
{
    if i < s.len() && is_digit_char(s[i]) {
        lemma_num_end_bounds(s, i + 1);
    }
}

pub proof fn lemma_line_end_bounds(s: Seq<char>, i: int)
    requires
        0 <= i <= s.len(),
    ensures
        i <= line_end(s, i) <= s.len(),
    decreases s.len() - i,
{
    if i < s.len() && s[i] != '\n' {
        lemma_line_end_bounds(s, i + 1);
    }
}

/// One token of the given kind whose text is `s[i..j]`.
pub open spec fn punct_model(s: Seq<char>, kind: TokenType, i: int, j: int) -> TokenModel {
    TokenModel { kind, text: s.subrange(i, j) }
}

/// The token stream that starts at position `i` of the source, end marker
/// not included. Each step either produces one token or skips one stretch
/// of blank, comment or unrecognized text.
pub open spec fn lex_from(s: Seq<char>, i: int) -> Seq<TokenModel>
    decreases s.len() - i when 0 <= i <= s.len() via lex_from_decreases
{
    if i >= s.len() {
        Seq::empty()
    } else {
        let c = s[i];
        if is_ident_start_char(c) {
            seq![punct_model(s, TokenType::Ident, i, ident_end(s, i))] + lex_from(s, ident_end(s, i))
        } else if is_digit_char(c) {
            seq![punct_model(s, TokenType::Number, i, num_end(s, i))] + lex_from(s, num_end(s, i))
        } else if c == '-' && i + 1 < s.len() && s[i + 1] == '>' {
            seq![punct_model(s, TokenType::Arrow, i, i + 2)] + lex_from(s, i + 2)
        } else if c == '-' {
            seq![punct_model(s, TokenType::Minus, i, i + 1)] + lex_from(s, i + 1)
        } else if c == '>' && i + 1 < s.len() && s[i + 1] == '=' {
            seq![punct_model(s, TokenType::GtEquals, i, i + 2)] + lex_from(s, i + 2)
        } else if c == '>' {
            seq![punct_model(s, TokenType::Gt, i, i + 1)] + lex_from(s, i + 1)
        } else if c == '<' && i + 1 < s.len() && s[i + 1] == '=' {
            seq![punct_model(s, TokenType::LtEquals, i, i + 2)] + lex_from(s, i + 2)
        } else if c == '<' {
            seq![punct_model(s, TokenType::Lt, i, i + 1)] + lex_from(s, i + 1)
        } else if c == '=' && i + 1 < s.len() && s[i + 1] == '=' {
            seq![punct_model(s, TokenType::EqualsEquals, i, i + 2)] + lex_from(s, i + 2)
        } else if c == '=' {
            seq![punct_model(s, TokenType::Equals, i, i + 1)] + lex_from(s, i + 1)
        } else if c == '!' && i + 1 < s.len() && s[i + 1] == '=' {
            seq![punct_model(s, TokenType::NotEquals, i, i + 2)] + lex_from(s, i + 2)
        } else if c == '(' {
            seq![punct_model(s, TokenType::LeftParen, i, i + 1)] + lex_from(s, i + 1)
        } else if c == ')' {
            seq![punct_model(s, TokenType::RightParen, i, i + 1)] + lex_from(s, i + 1)
        } else if c == '{' {
            seq![punct_model(s, TokenType::LeftBrace, i, i + 1)] + lex_from(s, i + 1)
        } else if c == '}' {
            seq![punct_model(s, TokenType::RightBrace, i, i + 1)] + lex_from(s, i + 1)
        } else if c == ':' {
            seq![punct_model(s, TokenType::Colon, i, i + 1)] + lex_from(s, i + 1)
        } else if c == '&' {
            seq![punct_model(s, TokenType::Ampersand, i, i + 1)] + lex_from(s, i + 1)
        } else if c == '%' {
            seq![punct_model(s, TokenType::Percent, i, i + 1)] + lex_from(s, i + 1)
        } else if c == '+' {
            seq![punct_model(s, TokenType::Plus, i, i + 1)] + lex_from(s, i + 1)
        } else if c == '/' && i + 1 < s.len() && s[i + 1] == '/' {
            lex_from(s, line_end(s, i + 2))
        } else {
            lex_from(s, i + 1)
        }
    }
}

#[via_fn]
proof fn lex_from_decreases(s: Seq<char>, i: int) {
    if 0 <= i && i < s.len() {
        if is_ident_start_char(s[i]) {
            lemma_ident_end_bounds(s, i + 1);
            assert(ident_end(s, i) == ident_end(s, i + 1));
        } else if is_digit_char(s[i]) {
            lemma_num_end_bounds(s, i + 1);
            assert(num_end(s, i) == num_end(s, i + 1));
        } else if s[i] == '/' && i + 1 < s.len() && s[i + 1] == '/' {
            lemma_line_end_bounds(s, i + 2);
        }
    }
}

/// The full token stream of a source text: every token of the text followed
/// by one `Eof` marker.
pub open spec fn tokens_spec(s: Seq<char>) -> Seq<TokenModel> {
    lex_from(s, 0).push(TokenModel { kind: TokenType::Eof, text: Seq::empty() })
}

/// Entirely blank (or otherwise token-free) text lexes to no token at all,
/// so the full stream of such text is the single `Eof` marker.
pub proof fn lemma_blank_lexes_empty(s: Seq<char>, i: int)
    requires
        0 <= i <= s.len(),
        forall|k: int| 0 <= k < s.len() ==> is_space_char(#[trigger] s[k]),
    ensures
        lex_from(s, i) == Seq::<TokenModel>::empty(),
    decreases s.len() - i,
{
    if i < s.len() {
        lemma_blank_lexes_empty(s, i + 1);
    }
}

/// Empty or whitespace-only text holds no token: its full stream is the
/// end marker alone. Together with the parser's contract — a parse that
/// begins at the end marker records an error — this pins down the handling
/// of blank templates.
pub proof fn lemma_blank_source_single_token(s: Seq<char>)
    requires
        forall|k: int| 0 <= k < s.len() ==> is_space_char(#[trigger] s[k]),
    ensures
        tokens_spec(s).len() == 1,
        tokens_spec(s)[0].kind == TokenType::Eof,
{
    lemma_blank_lexes_empty(s, 0);
}

fn is_ident_start(c: char) -> (r: bool)
    ensures
        r == is_ident_start_char(c),
{
    ('a' <= c && c <= 'z') || ('A' <= c && c <= 'Z') || c == '_'
}

fn is_digit(c: char) -> (r: bool)
    ensures
        r == is_digit_char(c),
{
    '0' <= c && c <= '9'
}

fn is_ident_cont(c: char) -> (r: bool)
    ensures
        r == is_ident_char(c),
{
    is_ident_start(c) || is_digit(c)
}

/// The characters of a string as a vector, for position-based scanning.
fn chars_of(s: &str) -> (v: Vec<char>)
    ensures
        v@ == s@,
{
    let n = s.unicode_len();
    let mut v: Vec<char> = Vec::new();
    let mut i: usize = 0;
    while i < n
        invariant
            n == s@.len(),
            i <= n,
            v@ =~= s@.subrange(0, i as int),
        decreases n - i,
    {
        let c = s.get_char(i);
        v.push(c);
        i = i + 1;
    }
    proof {
        assert(v@ =~= s@);
    }
    v
}

/// Classifies the comparison operators, used to validate the test of an
/// `if` expression.
pub fn is_op(t: &TokenType) -> (r: bool)
    ensures
        r == (t == TokenType::Gt || t == TokenType::Lt || t == TokenType::GtEquals
            || t == TokenType::LtEquals || t == TokenType::NotEquals
            || t == TokenType::EqualsEquals),
{
    match t {
        TokenType::Gt => true,
        TokenType::Lt => true,
        TokenType::GtEquals => true,
        TokenType::LtEquals => true,
        TokenType::NotEquals => true,
        TokenType::EqualsEquals => true,
        _ => false,
    }
}

/// Scans the whole source. The returned vector is exactly [`tokens_spec`]
/// of the text: its last token is the only `Eof`, so a parser driving a
/// cursor over it always finds a token and can treat the end as sticky.
pub fn tokenize(src: &str) -> (toks: Vec<Token>)
    ensures
        toks@.map_values(|t: Token| t@) == tokens_spec(src@),
        toks@.len() >= 1,
        toks@[toks@.len() - 1]@.kind == TokenType::Eof,
        forall|k: int| 0 <= k < toks@.len() - 1 ==> (#[trigger] toks@[k])@.kind != TokenType::Eof,
{
    let ghost s = src@;
    let n = src.unicode_len();
    let chars = chars_of(src);
    let mut toks: Vec<Token> = Vec::new();
    let mut i: usize = 0;
    while i < n
        invariant
            n == s.len(),
            s == src@,
            chars@ == s,
            i <= n,
            toks@.map_values(|t: Token| t@) + lex_from(s, i as int) =~= lex_from(s, 0),
            forall|k: int| 0 <= k < toks@.len() ==> (#[trigger] toks@[k])@.kind != TokenType::Eof,
        decreases n - i,
    {
        let ghost toks0 = toks@;
        let ghost i0 = i as int;
        let c = chars[i];
        if is_ident_start(c) {
            let mut j = i + 1;
            proof {
                lemma_ident_end_bounds(s, i0 + 1);
                assert(ident_end(s, i0) == ident_end(s, i0 + 1));
            }
            while j < n && is_ident_cont(chars[j])
                invariant
                    n == s.len(),
                    s == src@,
                    chars@ == s,
                    i0 < j <= n,
                    ident_end(s, i0) == ident_end(s, j as int),
                decreases n - j,
            {
                proof {
                    lemma_ident_end_bounds(s, j + 1);
                    assert(ident_end(s, j as int) == ident_end(s, j + 1));
                }
                j = j + 1;
            }
            proof {
                assert(ident_end(s, j as int) == j as int);
            }
            let text = src.substring_char(i, j).to_owned();
            toks.push(Token { tok_type: TokenType::Ident, val: text });
            i = j;
        } else if is_digit(c) {
            let mut j = i + 1;
            proof {
                lemma_num_end_bounds(s, i0 + 1);
                assert(num_end(s, i0) == num_end(s, i0 + 1));
            }
            while j < n && is_digit(chars[j])
                invariant
                    n == s.len(),
                    s == src@,
                    chars@ == s,
                    i0 < j <= n,
                    num_end(s, i0) == num_end(s, j as int),
                decreases n - j,
            {
                proof {
                    lemma_num_end_bounds(s, j + 1);
                    assert(num_end(s, j as int) == num_end(s, j + 1));
                }
                j = j + 1;
            }
            proof {
                assert(num_end(s, j as int) == j as int);
            }
            let text = src.substring_char(i, j).to_owned();
            toks.push(Token { tok_type: TokenType::Number, val: text });
            i = j;
        } else if c == '-' && i + 1 < n && chars[i + 1] == '>' {
            let text = src.substring_char(i, i + 2).to_owned();
            toks.push(Token { tok_type: TokenType::Arrow, val: text });
            i = i + 2;
        } else if c == '-' {
            let text = src.substring_char(i, i + 1).to_owned();
            toks.push(Token { tok_type: TokenType::Minus, val: text });
            i = i + 1;
        } else if c == '>' && i + 1 < n && chars[i + 1] == '=' {
            let text = src.substring_char(i, i + 2).to_owned();
            toks.push(Token { tok_type: TokenType::GtEquals, val: text });
            i = i + 2;
        } else if c == '>' {
            let text = src.substring_char(i, i + 1).to_owned();
            toks.push(Token { tok_type: TokenType::Gt, val: text });
            i = i + 1;
        } else if c == '<' && i + 1 < n && chars[i + 1] == '=' {
            let text = src.substring_char(i, i + 2).to_owned();
            toks.push(Token { tok_type: TokenType::LtEquals, val: text });
            i = i + 2;
        } else if c == '<' {
            let text = src.substring_char(i, i + 1).to_owned();
            toks.push(Token { tok_type: TokenType::Lt, val: text });
            i = i + 1;
        } else if c == '=' && i + 1 < n && chars[i + 1] == '=' {
            let text = src.substring_char(i, i + 2).to_owned();
            toks.push(Token { tok_type: TokenType::EqualsEquals, val: text });
            i = i + 2;
        } else if c == '=' {
            let text = src.substring_char(i, i + 1).to_owned();
            toks.push(Token { tok_type: TokenType::Equals, val: text });
            i = i + 1;
        } else if c == '!' && i + 1 < n && chars[i + 1] == '=' {
            let text = src.substring_char(i, i + 2).to_owned();
            toks.push(Token { tok_type: TokenType::NotEquals, val: text });
            i = i + 2;
        } else if c == '(' {
            let text = src.substring_char(i, i + 1).to_owned();
            toks.push(Token { tok_type: TokenType::LeftParen, val: text });
            i = i + 1;
        } else if c == ')' {
            let text = src.substring_char(i, i + 1).to_owned();
            toks.push(Token { tok_type: TokenType::RightParen, val: text });
            i = i + 1;
        } else if c == '{' {
            let text = src.substring_char(i, i + 1).to_owned();
            toks.push(Token { tok_type: TokenType::LeftBrace, val: text });
            i = i + 1;
        } else if c == '}' {
            let text = src.substring_char(i, i + 1).to_owned();
            toks.push(Token { tok_type: TokenType::RightBrace, val: text });
            i = i + 1;
        } else if c == ':' {
            let text = src.substring_char(i, i + 1).to_owned();
            toks.push(Token { tok_type: TokenType::Colon, val: text });
            i = i + 1;
        } else if c == '&' {
            let text = src.substring_char(i, i + 1).to_owned();
            toks.push(Token { tok_type: TokenType::Ampersand, val: text });
            i = i + 1;
        } else if c == '%' {
            let text = src.substring_char(i, i + 1).to_owned();
            toks.push(Token { tok_type: TokenType::Percent, val: text });
            i = i + 1;
        } else if c == '+' {
            let text = src.substring_char(i, i + 1).to_owned();
            toks.push(Token { tok_type: TokenType::Plus, val: text });
            i = i + 1;
        } else if c == '/' && i + 1 < n && chars[i + 1] == '/' {
            let mut j = i + 2;
            proof {
                lemma_line_end_bounds(s, i0 + 2);
            }
            while j < n && chars[j] != '\n'
                invariant
                    n == s.len(),
                    s == src@,
                    chars@ == s,
                    i0 + 2 <= j <= n,
                    line_end(s, i0 + 2) == line_end(s, j as int),
                decreases n - j,
            {
                proof {
                    lemma_line_end_bounds(s, j + 1);
                    assert(line_end(s, j as int) == line_end(s, j + 1));
                }
                j = j + 1;
            }
            proof {
                assert(line_end(s, j as int) == j as int);
            }
            i = j;
        } else {
            i = i + 1;
        }
        proof {
            assert(toks@.map_values(|t: Token| t@) + lex_from(s, i as int) =~= lex_from(s, 0));
        }
    }
    toks.push(Token::new(TokenType::Eof));
    proof {
        assert(toks@.map_values(|t: Token| t@) =~= tokens_spec(s));
    }
    toks
}

} // verus!
