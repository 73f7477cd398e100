//! Tokens, token kinds, and the classification rules that map a matched
//! piece of source text to its kind.

use vstd::prelude::*;

verus! {

/// The closed set of token kinds. Every non-empty matched substring maps to
/// exactly one of these.
#[derive(PartialEq, Eq, Structural, Clone, Copy, Debug)]
pub enum TokenKind {
    Assign,
    VariableSigil,
    KeywordSet,
    KeywordJump,
    KeywordPrint,
    Minus,
    Plus,
    Divide,
    Multiply,
    Terminator,
    Identifier,
    Numeric,
}

/// A single classified token: the exact matched substring, its kind, the
/// 1-based line it was scanned on, and the 1-based index of its first
/// character within the scanned text.
#[derive(PartialEq, Debug)]
pub struct Token {
    pub part: String,
    pub kind: TokenKind,
    pub line_num: i64,
    pub char_num: i64,
}

/// The mathematical value of a [`Token`]: its text as a character sequence,
/// its kind, and its position.
#[verifier::ext_equal]
pub ghost struct TokenModel {
    pub part: Seq<char>,
    pub kind: TokenKind,
    pub line: int,
    pub col: int,
}

impl View for Token {
    type V = TokenModel;

    open spec fn view(&self) -> TokenModel {
        TokenModel {
            part: self.part@,
            kind: self.kind,
            line: self.line_num as int,
            col: self.char_num as int,
        }
    }
}

/// The mathematical values of a token sequence.
pub open spec fn models(ts: Seq<Token>) -> Seq<TokenModel> {
    ts.map_values(|t: Token| t@)
}

/// The texts of a token sequence, concatenated in order with nothing in
/// between.
pub open spec fn concat_parts(ts: Seq<TokenModel>) -> Seq<char>
    decreases ts.len(),
{
    if ts.len() == 0 {
        Seq::empty()
    } else {
        ts[0].part + concat_parts(ts.skip(1))
    }
}

/// Concatenating one more token's text appends it at the end.
pub proof fn lemma_concat_parts_snoc(ts: Seq<TokenModel>, t: TokenModel)
    ensures
        concat_parts(ts.push(t)) == concat_parts(ts) + t.part,
    decreases ts.len(),
{
    let whole = ts.push(t);
    if ts.len() == 0 {
        assert(whole[0] == t);
        assert(whole.skip(1) =~= Seq::<TokenModel>::empty());
        assert(t.part + concat_parts(Seq::<TokenModel>::empty()) =~= concat_parts(ts) + t.part);
    } else {
        assert(whole[0] == ts[0]);
        assert(whole.skip(1) =~= ts.skip(1).push(t));
        lemma_concat_parts_snoc(ts.skip(1), t);
        assert(ts[0].part + (concat_parts(ts.skip(1)) + t.part) =~= (ts[0].part + concat_parts(
            ts.skip(1),
        )) + t.part);
    }
}

/// An explicit copy of a token, equal to it in the model.
pub fn clone_token(t: &Token) -> (r: Token)
    ensures
        r@ == t@,
{
    Token { part: t.part.clone(), kind: t.kind, line_num: t.line_num, char_num: t.char_num }
}

/// The characters the scanner treats as whitespace: space, tab and newline.
pub open spec fn is_whitespace_char(c: char) -> bool {
    c == ' ' || c == '\t' || c == '\n'
}

/// The fixed set of single-character symbols. A symbol character is always
/// a token of its own.
pub open spec fn is_symbol_char(c: char) -> bool {
    c == '+' || c == '-' || c == '*' || c == '/' || c == '>' || c == '<' || c == '='
        || c == ';' || c == '$'
}

/// Decimal digits.
pub open spec fn is_digit_char(c: char) -> bool {
    '0' <= c && c <= '9'
}

/// Whether any character of `s` is a decimal digit. A text with at least
/// one digit anywhere in it classifies as numeric.
pub open spec fn has_digit(s: Seq<char>) -> bool {
    exists|k: int| 0 <= k < s.len() && is_digit_char(s[k])
}

/// The classification of a matched substring: an exact-match table first
/// (symbols and keywords), then the default of identifier, refined to
/// numeric when any character is a digit.
pub open spec fn token_kind_of(s: Seq<char>) -> TokenKind {
    if s.len() == 1 && s[0] == '-' {
        TokenKind::Minus
    } else if s.len() == 1 && s[0] == '+' {
        TokenKind::Plus
    } else if s.len() == 1 && s[0] == '/' {
        TokenKind::Divide
    } else if s.len() == 1 && s[0] == '*' {
        TokenKind::Multiply
    } else if s.len() == 1 && s[0] == '=' {
        TokenKind::Assign
    } else if s.len() == 1 && s[0] == '$' {
        TokenKind::VariableSigil
    } else if s.len() == 1 && s[0] == ';' {
        TokenKind::Terminator
    } else if s.len() == 3 && s[0] == 's' && s[1] == 'e' && s[2] == 't' {
        TokenKind::KeywordSet
    } else if s.len() == 4 && s[0] == 'j' && s[1] == 'u' && s[2] == 'm' && s[3] == 'p' {
        TokenKind::KeywordJump
    } else if s.len() == 5 && s[0] == 'p' && s[1] == 'r' && s[2] == 'i' && s[3] == 'n'
        && s[4] == 't' {
        TokenKind::KeywordPrint
    } else if has_digit(s) {
        TokenKind::Numeric
    } else {
        TokenKind::Identifier
    }
}

/// Check if a given character is whitespace.
pub fn is_char_whitespace(ch: char) -> (b: bool)
    ensures
        b == is_whitespace_char(ch),
{
    match ch {
        '\t' | ' ' | '\n' => true,
        _ => false,
    }
}

/// Check if a character is a symbol.
pub fn is_char_symbol(ch: char) -> (b: bool)
    ensures
        b == is_symbol_char(ch),
{
    match ch {
        '+' | '-' | '*' | '/' | '>' | '<' | '=' | ';' | '$' => true,
        _ => false,
    }
}

/// Check if a character is between 0 and 9.
pub fn is_char_numeric(ch: char) -> (b: bool)
    ensures
        b == is_digit_char(ch),
{
    '0' <= ch && ch <= '9'
}

/// Where the current token ends: when the next character is whitespace, or
/// either the current or the next character is a symbol.
pub open spec fn ends_token_at(cur: char, next: char) -> bool {
    is_whitespace_char(next) || is_symbol_char(cur) || is_symbol_char(next)
}

/// Check if the current character or the next character will end the token.
pub fn ends_token(cur: char, next: char) -> (b: bool)
    ensures
        b == ends_token_at(cur, next),
{
    if is_char_whitespace(next) {
        return true;
    }
    if is_char_symbol(cur) {
        return true;
    }
    if is_char_symbol(next) {
        return true;
    }
    false
}

/// Given a string reference that has been identified as a single token,
/// find what kind of token it is.
pub fn tokenize(part: &str) -> (t: TokenKind)
    ensures
        t == token_kind_of(part@),
{
    let n = part.unicode_len();
    if n == 1 {
        let c = part.get_char(0);
        if c == '-' {
            return TokenKind::Minus;
        }
        if c == '+' {
            return TokenKind::Plus;
        }
        if c == '/' {
            return TokenKind::Divide;
        }
        if c == '*' {
            return TokenKind::Multiply;
        }
        if c == '=' {
            return TokenKind::Assign;
        }
        if c == '$' {
            return TokenKind::VariableSigil;
        }
        if c == ';' {
            return TokenKind::Terminator;
        }
    }
    if n == 3 && part.get_char(0) == 's' && part.get_char(1) == 'e' && part.get_char(2) == 't' {
        return TokenKind::KeywordSet;
    }
    if n == 4 && part.get_char(0) == 'j' && part.get_char(1) == 'u' && part.get_char(2) == 'm'
        && part.get_char(3) == 'p' {
        return TokenKind::KeywordJump;
    }
    if n == 5 && part.get_char(0) == 'p' && part.get_char(1) == 'r' && part.get_char(2) == 'i'
        && part.get_char(3) == 'n' && part.get_char(4) == 't' {
        return TokenKind::KeywordPrint;
    }
    // Both identifiers and numeric literals reach this point; the text is
    // numeric when any of its characters is a digit.
    let mut k: usize = 0;
    while k < n
        invariant
            k <= n,
            n == part@.len(),
            token_kind_of(part@) == TokenKind::Identifier || token_kind_of(part@)
                == TokenKind::Numeric,
            forall|j: int| 0 <= j < k ==> !is_digit_char(part@[j]),
        decreases n - k,
    {
        if is_char_numeric(part.get_char(k)) {
            return TokenKind::Numeric;
        }
        k += 1;
    }
    TokenKind::Identifier
}

} // verus!
