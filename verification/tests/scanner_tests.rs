use mahou::lexer::new_lexer;
use mahou::text::spacer;
use mahou::token::{tokenize, Token, TokenKind};

#[test]
fn lexer_test() {
    let mut lexer = new_lexer("set a");
    lexer.lexer();
    assert_eq!(
        lexer.tokens,
        vec![
            Token {
                part: "set".to_string(),
                kind: TokenKind::KeywordSet,
                line_num: 1,
                char_num: 1,
            },
            Token {
                part: "a".to_string(),
                kind: TokenKind::Identifier,
                line_num: 1,
                char_num: 5,
            },
        ]
    );

    let mut lexer = new_lexer("jump -2");
    lexer.lexer();
    assert_eq!(
        lexer.tokens,
        vec![
            Token {
                part: "jump".to_string(),
                kind: TokenKind::KeywordJump,
                line_num: 1,
                char_num: 1,
            },
            Token {
                part: "-".to_string(),
                kind: TokenKind::Minus,
                line_num: 1,
                char_num: 6,
            },
            Token {
                part: "2".to_string(),
                kind: TokenKind::Numeric,
                line_num: 1,
                char_num: 7,
            },
        ]
    );
}

#[test]
fn tokenize_test() {
    assert_eq!(tokenize("set"), TokenKind::KeywordSet);
    assert_eq!(tokenize("+"), TokenKind::Plus);
    assert_eq!(tokenize("1"), TokenKind::Numeric);
    assert_eq!(tokenize("a"), TokenKind::Identifier);
}

#[test]
fn classify_table() {
    assert_eq!(tokenize("set"), TokenKind::KeywordSet);
    assert_eq!(tokenize("jump"), TokenKind::KeywordJump);
    assert_eq!(tokenize("print"), TokenKind::KeywordPrint);
    assert_eq!(tokenize("-"), TokenKind::Minus);
    assert_eq!(tokenize("+"), TokenKind::Plus);
    assert_eq!(tokenize("/"), TokenKind::Divide);
    assert_eq!(tokenize("*"), TokenKind::Multiply);
    assert_eq!(tokenize("="), TokenKind::Assign);
    assert_eq!(tokenize("$"), TokenKind::VariableSigil);
    assert_eq!(tokenize(";"), TokenKind::Terminator);
    assert_eq!(tokenize("1"), TokenKind::Numeric);
    assert_eq!(tokenize("a"), TokenKind::Identifier);
    // The mixed-content rule: any digit anywhere promotes to numeric.
    assert_eq!(tokenize("a1"), TokenKind::Numeric);
    assert_eq!(tokenize("x2y"), TokenKind::Numeric);
    assert_eq!(tokenize("abc"), TokenKind::Identifier);
}

#[test]
fn scan_set_statement() {
    let mut lexer = new_lexer("set a = 0;");
    lexer.lexer();
    let kinds: Vec<TokenKind> = lexer.tokens.iter().map(|t| t.kind).collect();
    let parts: Vec<&str> = lexer.tokens.iter().map(|t| t.part.as_str()).collect();
    assert_eq!(
        kinds,
        vec![
            TokenKind::KeywordSet,
            TokenKind::Identifier,
            TokenKind::Assign,
            TokenKind::Numeric,
            TokenKind::Terminator,
        ]
    );
    assert_eq!(parts, vec!["set", "a", "=", "0", ";"]);
    assert!(lexer.tokens.iter().all(|t| t.line_num == 1));
}

#[test]
fn scan_jump_statement() {
    // The sign and the magnitude are separate tokens, never a signed
    // numeric literal.
    let mut lexer = new_lexer("jump -2;");
    lexer.lexer();
    let kinds: Vec<TokenKind> = lexer.tokens.iter().map(|t| t.kind).collect();
    let parts: Vec<&str> = lexer.tokens.iter().map(|t| t.part.as_str()).collect();
    assert_eq!(
        kinds,
        vec![
            TokenKind::KeywordJump,
            TokenKind::Minus,
            TokenKind::Numeric,
            TokenKind::Terminator,
        ]
    );
    assert_eq!(parts, vec!["jump", "-", "2", ";"]);
}

#[test]
fn token_concat_reconstructs() {
    // Concatenating the token texts loses nothing but whitespace.
    let mut lexer = new_lexer("set a = 0;\n print b;");
    lexer.lexer();
    let joined: String = lexer.tokens.iter().map(|t| t.part.as_str()).collect();
    assert_eq!(joined, "seta=0;printb;");
}

#[test]
fn symbols_split() {
    // A symbol adjacent to letters or digits is always its own
    // single-character token.
    let mut lexer = new_lexer("x+1");
    lexer.lexer();
    let parts: Vec<&str> = lexer.tokens.iter().map(|t| t.part.as_str()).collect();
    assert_eq!(parts, vec!["x", "+", "1"]);

    let mut lexer = new_lexer("$pi*2>y<z/w");
    lexer.lexer();
    let parts: Vec<&str> = lexer.tokens.iter().map(|t| t.part.as_str()).collect();
    assert_eq!(parts, vec!["$", "pi", "*", "2", ">", "y", "<", "z", "/", "w"]);
    assert!(lexer.tokens.iter().all(|t| t.part.chars().count() >= 1));
}

#[test]
fn newline_advances_lines() {
    let mut lexer = new_lexer("set a = 0;\nprint a;\njump b;");
    lexer.lexer();
    let lines: Vec<i64> = lexer.tokens.iter().map(|t| t.line_num).collect();
    assert_eq!(lines, vec![1, 1, 1, 1, 1, 2, 2, 2, 3, 3, 3]);
}

#[test]
fn scan_empty_input() {
    let mut lexer = new_lexer("");
    lexer.lexer();
    assert!(lexer.tokens.is_empty());
}

#[test]
fn new_lexer_pads_contents() {
    let lexer = new_lexer("ab");
    assert_eq!(lexer.contents, "ab    ");
    assert_eq!(lexer.index, 0);
    assert!(lexer.tokens.is_empty());
}

#[test]
fn spacer_test() {
    assert_eq!(spacer(3, '-'), "---");
    assert_eq!(spacer(0, 'x'), "");
    assert_eq!(spacer(5, ' '), "     ");
}
