use mahou::lexer::new_lexer;
use mahou::parser::{ParseError, Parser};
use mahou::token::{Token, TokenKind};

fn parse_source(source: &str) -> Result<Vec<String>, ParseError> {
    let mut lexer = new_lexer(source);
    lexer.lexer();
    let parser = Parser { tokens: lexer.tokens };
    parser.parse()
}

#[test]
fn group_set_statement() {
    assert_eq!(parse_source("set a = 0;"), Ok(vec!["a = 0".to_string()]));
}

#[test]
fn group_print_statement() {
    assert_eq!(parse_source("print a;"), Ok(vec!["print(a)".to_string()]));
}

#[test]
fn group_passthrough_statement() {
    // No leading keyword: the tokens are concatenated verbatim with no
    // inserted separators, and the terminator is stripped.
    assert_eq!(parse_source("x+1;"), Ok(vec!["x+1".to_string()]));
}

#[test]
fn group_trailing_tokens_dropped() {
    // A source ending without a trailing terminator produces zero
    // rendered statements, even though the scanner still emits tokens.
    let mut lexer = new_lexer("print a");
    lexer.lexer();
    assert_eq!(lexer.tokens.len(), 2);
    let parser = Parser { tokens: lexer.tokens };
    assert_eq!(parser.parse(), Ok(vec![]));
}

#[test]
fn group_multiple_statements() {
    assert_eq!(
        parse_source("set a = 0;\nprint a;\nb+1;"),
        Ok(vec![
            "a = 0".to_string(),
            "print(a)".to_string(),
            "b+1".to_string(),
        ])
    );
}

#[test]
fn group_set_uses_fixed_positions() {
    // The set rule reads the second and fourth tokens only; anything
    // after them in the statement is ignored.
    assert_eq!(parse_source("set a = 0 junk;"), Ok(vec!["a = 0".to_string()]));
}

#[test]
fn group_empty_statement() {
    // A lone terminator is a statement with no leading keyword; its
    // rendering strips the terminator and leaves nothing.
    assert_eq!(parse_source(";"), Ok(vec!["".to_string()]));
}

#[test]
fn group_malformed_set() {
    // A set statement lacking the tokens at the fixed positions its
    // render rule requires aborts the pass with a located error.
    assert_eq!(
        parse_source("set a;"),
        Err(ParseError::MalformedStatement { line_num: 1, char_num: 1 })
    );
}

#[test]
fn group_malformed_set_location() {
    // The error carries the line and column of the offending
    // statement's first token.
    assert_eq!(
        parse_source("print a;\nset;"),
        Err(ParseError::MalformedStatement { line_num: 2, char_num: 10 })
    );
}

#[test]
fn group_statements_after_error_unreached() {
    // The pass halts at the first malformed statement.
    assert_eq!(
        parse_source("set; print a;"),
        Err(ParseError::MalformedStatement { line_num: 1, char_num: 1 })
    );
}

#[test]
fn group_hand_built_tokens() {
    // The grouper dispatches on token kinds alone, wherever the tokens
    // came from.
    let tokens = vec![
        Token {
            part: "print".to_string(),
            kind: TokenKind::KeywordPrint,
            line_num: 1,
            char_num: 1,
        },
        Token {
            part: "q".to_string(),
            kind: TokenKind::Identifier,
            line_num: 1,
            char_num: 7,
        },
        Token {
            part: ";".to_string(),
            kind: TokenKind::Terminator,
            line_num: 1,
            char_num: 8,
        },
    ];
    let parser = Parser { tokens };
    assert_eq!(parser.parse(), Ok(vec!["print(q)".to_string()]));
}
