//! The scanner: a single left-to-right walk over the source text that
//! produces the ordered token sequence, together with the mathematical
//! model of that walk and the laws proved about it.

use vstd::prelude::*;
use crate::text::push_char;
use crate::token::{
    concat_parts, ends_token, ends_token_at, is_char_whitespace, is_symbol_char,
    is_whitespace_char, models, token_kind_of, tokenize, Token, TokenModel,
};

verus! {

/// The character at position `i` of `s`, with a virtual space past either
/// end: the scanner's one-character lookahead never fails, because the
/// text it walks carries trailing whitespace padding.
pub open spec fn char_at(s: Seq<char>, i: int) -> char {
    if 0 <= i < s.len() {
        s[i]
    } else {
        ' '
    }
}

/// The number of newline characters in `s`.
pub open spec fn newline_count(s: Seq<char>) -> int
    decreases s.len(),
{
    if s.len() == 0 {
        0
    } else {
        newline_count(s.drop_last()) + if s.last() == '\n' {
            1int
        } else {
            0int
        }
    }
}

/// The token sequence produced by the rest of the scan: position `i` in
/// `s`, with `buf` the characters of the token built so far and `line` the
/// current 1-based line number.
///
/// One character is consumed per step. A newline only advances the line
/// counter; other whitespace is skipped; any other character joins the
/// current token, which is emitted as soon as the boundary rule
/// [`ends_token_at`] holds of the current and next characters. The column
/// recorded for a token is the 1-based position of its first character.
pub open spec fn scan_from(s: Seq<char>, i: int, buf: Seq<char>, line: int) -> Seq<TokenModel>
    decreases s.len() - i,
{
    if i < 0 || i >= s.len() {
        Seq::empty()
    } else {
        let c = s[i];
        if c == '\n' {
            scan_from(s, i + 1, buf, line + 1)
        } else if is_whitespace_char(c) {
            scan_from(s, i + 1, buf, line)
        } else {
            let grown = buf.push(c);
            if ends_token_at(c, char_at(s, i + 1)) {
                seq![
                    TokenModel {
                        part: grown,
                        kind: token_kind_of(grown),
                        line: line,
                        col: i + 2 - grown.len(),
                    },
                ] + scan_from(s, i + 1, Seq::empty(), line)
            } else {
                scan_from(s, i + 1, grown, line)
            }
        }
    }
}

/// The token sequence of a whole text: the scan from its first character,
/// with an empty token buffer, on line 1.
pub open spec fn scan_tokens(s: Seq<char>) -> Seq<TokenModel> {
    scan_from(s, 0, Seq::empty(), 1)
}

/// The characters of the source that are not whitespace, in order: the
/// view of the text that the token sequence reconstructs.
pub open spec fn meaningful_chars(s: Seq<char>) -> Seq<char>
    decreases s.len(),
{
    if s.len() == 0 {
        Seq::empty()
    } else if is_whitespace_char(s[0]) {
        meaningful_chars(s.skip(1))
    } else {
        seq![s[0]] + meaningful_chars(s.skip(1))
    }
}

/// A token as the scan emits it: a non-empty contiguous run of
/// non-whitespace characters of `s` standing at its 1-based column,
/// single-character whenever it holds a symbol, classified by
/// [`token_kind_of`], and placed on the line given by the newlines before
/// its first character.
pub open spec fn token_wf(s: Seq<char>, t: TokenModel) -> bool {
    &&& t.part.len() > 0
    &&& 1 <= t.col
    &&& t.col - 1 + t.part.len() <= s.len()
    &&& t.part == s.subrange(t.col - 1, t.col - 1 + t.part.len())
    &&& (forall|k: int| 0 <= k < t.part.len() ==> !is_whitespace_char(#[trigger] t.part[k]))
    &&& (exists|k: int| 0 <= k < t.part.len() && is_symbol_char(t.part[k])) ==> t.part.len() == 1
    &&& t.kind == token_kind_of(t.part)
    &&& t.line == 1 + newline_count(s.take(t.col - 1))
}

proof fn lemma_newline_count_step(s: Seq<char>, i: int)
    requires
        0 <= i < s.len(),
    ensures
        newline_count(s.take(i + 1)) == newline_count(s.take(i)) + if s[i] == '\n' {
            1int
        } else {
            0int
        },
{
    assert(s.take(i + 1).drop_last() =~= s.take(i));
    assert(s.take(i + 1).last() == s[i]);
}

proof fn lemma_newline_count_range(s: Seq<char>, a: int, b: int)
    requires
        0 <= a <= b <= s.len(),
        forall|k: int| a <= k < b ==> #[trigger] s[k] != '\n',
    ensures
        newline_count(s.take(b)) == newline_count(s.take(a)),
    decreases b - a,
{
    if a < b {
        lemma_newline_count_step(s, b - 1);
        lemma_newline_count_range(s, a, b - 1);
    }
}

proof fn lemma_scan_from_wf(s: Seq<char>, i: int, buf: Seq<char>, line: int)
    requires
        0 <= i <= s.len(),
        buf.len() <= i,
        buf == s.subrange(i - buf.len(), i),
        forall|k: int| i - buf.len() <= k < i ==> !is_whitespace_char(#[trigger] s[k])
            && !is_symbol_char(s[k]),
        buf.len() > 0 ==> i < s.len() && !is_whitespace_char(s[i]) && !is_symbol_char(s[i]),
        line == 1 + newline_count(s.take(i)),
    ensures
        forall|j: int|
            0 <= j < scan_from(s, i, buf, line).len() ==> token_wf(
                s,
                #[trigger] scan_from(s, i, buf, line)[j],
            ),
    decreases s.len() - i,
{
    if i >= s.len() {
    } else {
        let c = s[i];
        let cur = scan_from(s, i, buf, line);
        if c == '\n' {
            assert(buf.len() == 0);
            lemma_newline_count_step(s, i);
            assert(buf =~= s.subrange(i + 1, i + 1));
            lemma_scan_from_wf(s, i + 1, buf, line + 1);
            assert forall|j: int| 0 <= j < cur.len() implies token_wf(s, #[trigger] cur[j]) by {
                assert(cur[j] == scan_from(s, i + 1, buf, line + 1)[j]);
            }
        } else if is_whitespace_char(c) {
            assert(buf.len() == 0);
            lemma_newline_count_step(s, i);
            assert(buf =~= s.subrange(i + 1, i + 1));
            lemma_scan_from_wf(s, i + 1, buf, line);
            assert forall|j: int| 0 <= j < cur.len() implies token_wf(s, #[trigger] cur[j]) by {
                assert(cur[j] == scan_from(s, i + 1, buf, line)[j]);
            }
        } else {
            let grown = buf.push(c);
            let start = i - buf.len();
            lemma_newline_count_step(s, i);
            if ends_token_at(c, char_at(s, i + 1)) {
                let tm = TokenModel {
                    part: grown,
                    kind: token_kind_of(grown),
                    line: line,
                    col: i + 2 - grown.len(),
                };
                let rest = scan_from(s, i + 1, Seq::<char>::empty(), line);
                assert(scan_from(s, i, buf, line) =~= seq![tm] + rest);
                assert(grown =~= s.subrange(start, i + 1));
                lemma_newline_count_range(s, start, i);
                assert(token_wf(s, tm)) by {
                    if exists|k: int| 0 <= k < grown.len() && is_symbol_char(grown[k]) {
                        let k = choose|k: int| 0 <= k < grown.len() && is_symbol_char(grown[k]);
                        assert(grown[k] == s[start + k]);
                        assert(k == buf.len());
                        assert(buf.len() == 0);
                    }
                }
                assert(Seq::<char>::empty() =~= s.subrange(i + 1, i + 1));
                lemma_scan_from_wf(s, i + 1, Seq::<char>::empty(), line);
                assert forall|j: int| 0 <= j < scan_from(s, i, buf, line).len() implies token_wf(
                    s,
                    #[trigger] scan_from(s, i, buf, line)[j],
                ) by {
                    if j == 0 {
                        assert(scan_from(s, i, buf, line)[0] == tm);
                    } else {
                        assert(scan_from(s, i, buf, line)[j] == rest[j - 1]);
                    }
                }
            } else {
                assert(!is_symbol_char(c));
                assert(!is_whitespace_char(char_at(s, i + 1)) && !is_symbol_char(
                    char_at(s, i + 1),
                ));
                assert(i + 1 < s.len());
                assert(grown =~= s.subrange(i + 1 - grown.len(), i + 1));
                lemma_scan_from_wf(s, i + 1, grown, line);
                assert forall|j: int| 0 <= j < cur.len() implies token_wf(
                    s,
                    #[trigger] cur[j],
                ) by {
                    assert(cur[j] == scan_from(s, i + 1, grown, line)[j]);
                }
            }
        }
    }
}

/// Every token that the scan of `s` emits is well-formed in the sense of
/// [`token_wf`]: its text is the contiguous non-whitespace substring of
/// `s` standing at its column, a token holding a symbol character is that
/// single character, its kind is the classification of its text, and its
/// line number is one more than the count of newlines before its start —
/// so tokens before the first newline report line 1, and each newline
/// raises the line of every token after it.
pub proof fn lemma_scan_tokens_wf(s: Seq<char>)
    ensures
        forall|j: int|
            0 <= j < scan_tokens(s).len() ==> token_wf(s, #[trigger] scan_tokens(s)[j]),
{
    assert(Seq::<char>::empty() =~= s.subrange(0, 0));
    assert(s.take(0) =~= Seq::<char>::empty());
    lemma_scan_from_wf(s, 0, Seq::<char>::empty(), 1);
}

proof fn lemma_scan_from_concat(s: Seq<char>, i: int, buf: Seq<char>, line: int)
    requires
        0 <= i <= s.len(),
        buf.len() > 0 ==> i < s.len() && !is_whitespace_char(s[i]),
    ensures
        concat_parts(scan_from(s, i, buf, line)) == buf + meaningful_chars(s.skip(i)),
    decreases s.len() - i,
{
    if i >= s.len() {
        assert(buf.len() == 0);
        assert(s.skip(i) =~= Seq::<char>::empty());
        assert(buf + meaningful_chars(s.skip(i)) =~= Seq::<char>::empty());
    } else {
        let c = s[i];
        assert(s.skip(i)[0] == s[i]);
        assert(s.skip(i).skip(1) =~= s.skip(i + 1));
        if is_whitespace_char(c) {
            assert(buf.len() == 0);
            if c == '\n' {
                lemma_scan_from_concat(s, i + 1, buf, line + 1);
            } else {
                lemma_scan_from_concat(s, i + 1, buf, line);
            }
            assert(meaningful_chars(s.skip(i)) == meaningful_chars(s.skip(i + 1)));
        } else {
            let grown = buf.push(c);
            if ends_token_at(c, char_at(s, i + 1)) {
                let tm = TokenModel {
                    part: grown,
                    kind: token_kind_of(grown),
                    line: line,
                    col: i + 2 - grown.len(),
                };
                let rest = scan_from(s, i + 1, Seq::<char>::empty(), line);
                let whole = seq![tm] + rest;
                assert(scan_from(s, i, buf, line) =~= whole);
                lemma_scan_from_concat(s, i + 1, Seq::<char>::empty(), line);
                assert(whole[0] == tm);
                assert(whole.skip(1) =~= rest);
                assert(concat_parts(whole) == grown + concat_parts(rest));
                assert(concat_parts(rest) =~= meaningful_chars(s.skip(i + 1)));
                assert(meaningful_chars(s.skip(i)) == seq![c] + meaningful_chars(s.skip(i + 1)));
                assert(grown + meaningful_chars(s.skip(i + 1)) =~= buf + meaningful_chars(
                    s.skip(i),
                ));
            } else {
                assert(i + 1 < s.len() && !is_whitespace_char(s[i + 1]));
                lemma_scan_from_concat(s, i + 1, grown, line);
                assert(meaningful_chars(s.skip(i)) == seq![c] + meaningful_chars(s.skip(i + 1)));
                assert(grown + meaningful_chars(s.skip(i + 1)) =~= buf + meaningful_chars(
                    s.skip(i),
                ));
            }
        }
    }
}

/// The token texts, concatenated in order, reconstruct exactly the
/// non-whitespace characters of the source: the scan loses nothing but
/// whitespace.
pub proof fn lemma_scan_reconstructs_source(s: Seq<char>)
    ensures
        concat_parts(scan_tokens(s)) == meaningful_chars(s),
{
    lemma_scan_from_concat(s, 0, Seq::<char>::empty(), 1);
    assert(s.skip(0) =~= s);
    assert(Seq::<char>::empty() + meaningful_chars(s) =~= meaningful_chars(s));
}

proof fn lemma_scan_from_symbols(s: Seq<char>, i: int, buf: Seq<char>, line: int)
    requires
        0 <= i <= s.len(),
        buf.len() > 0 ==> i < s.len() && !is_whitespace_char(s[i]) && !is_symbol_char(s[i]),
    ensures
        forall|k: int|
            i <= k < s.len() && is_symbol_char(#[trigger] s[k]) ==> exists|j: int|
                0 <= j < scan_from(s, i, buf, line).len() && #[trigger] scan_from(
                    s,
                    i,
                    buf,
                    line,
                )[j].part == seq![s[k]] && scan_from(s, i, buf, line)[j].col == k + 1,
    decreases s.len() - i,
{
    if i >= s.len() {
    } else {
        let c = s[i];
        let cur = scan_from(s, i, buf, line);
        if c == '\n' || is_whitespace_char(c) {
            if c == '\n' {
                lemma_scan_from_symbols(s, i + 1, buf, line + 1);
            } else {
                lemma_scan_from_symbols(s, i + 1, buf, line);
            }
            assert forall|k: int| i <= k < s.len() && is_symbol_char(#[trigger] s[k]) implies
                exists|j: int|
                    0 <= j < cur.len() && #[trigger] cur[j].part == seq![s[k]] && cur[j].col == k
                        + 1 by {
                assert(k != i);
            }
        } else {
            let grown = buf.push(c);
            if ends_token_at(c, char_at(s, i + 1)) {
                let tm = TokenModel {
                    part: grown,
                    kind: token_kind_of(grown),
                    line: line,
                    col: i + 2 - grown.len(),
                };
                let rest = scan_from(s, i + 1, Seq::<char>::empty(), line);
                assert(cur =~= seq![tm] + rest);
                lemma_scan_from_symbols(s, i + 1, Seq::<char>::empty(), line);
                assert forall|k: int| i <= k < s.len() && is_symbol_char(#[trigger] s[k]) implies
                    exists|j: int|
                        0 <= j < cur.len() && #[trigger] cur[j].part == seq![s[k]] && cur[j].col
                            == k + 1 by {
                    if k == i {
                        assert(buf.len() == 0);
                        assert(grown =~= seq![c]);
                        assert(cur[0] == tm);
                        assert(cur[0].part == seq![s[k]] && cur[0].col == k + 1);
                    } else {
                        let j = choose|j: int|
                            0 <= j < rest.len() && #[trigger] rest[j].part == seq![s[k]]
                                && rest[j].col == k + 1;
                        assert(cur[j + 1] == rest[j]);
                        assert(cur[j + 1].part == seq![s[k]] && cur[j + 1].col == k + 1);
                    }
                }
            } else {
                assert(!is_symbol_char(c));
                assert(i + 1 < s.len() && !is_whitespace_char(s[i + 1]) && !is_symbol_char(
                    s[i + 1],
                ));
                lemma_scan_from_symbols(s, i + 1, grown, line);
                assert forall|k: int| i <= k < s.len() && is_symbol_char(#[trigger] s[k]) implies
                    exists|j: int|
                        0 <= j < cur.len() && #[trigger] cur[j].part == seq![s[k]] && cur[j].col
                            == k + 1 by {
                    assert(k != i);
                }
            }
        }
    }
}

/// Every symbol character of the source appears as a token of its own:
/// for each position holding a symbol character there is a token whose
/// text is exactly that one character and whose column is that position.
/// Together with [`lemma_scan_tokens_wf`] (a token holding a symbol has
/// length one), symbols never combine into multi-character operators, and
/// a symbol adjacent to other text forces a boundary on both sides.
pub proof fn lemma_symbols_are_single_tokens(s: Seq<char>)
    ensures
        forall|k: int|
            0 <= k < s.len() && is_symbol_char(#[trigger] s[k]) ==> exists|j: int|
                0 <= j < scan_tokens(s).len() && #[trigger] scan_tokens(s)[j].part == seq![s[k]]
                    && scan_tokens(s)[j].col == k + 1,
{
    lemma_scan_from_symbols(s, 0, Seq::<char>::empty(), 1);
    let cur = scan_from(s, 0, Seq::<char>::empty(), 1);
    assert forall|k: int| 0 <= k < s.len() && is_symbol_char(#[trigger] s[k]) implies exists|
        j: int,
    |
        0 <= j < scan_tokens(s).len() && #[trigger] scan_tokens(s)[j].part == seq![s[k]]
            && scan_tokens(s)[j].col == k + 1 by {
        let j = choose|j: int|
            0 <= j < cur.len() && #[trigger] cur[j].part == seq![s[k]] && cur[j].col == k + 1;
        assert(0 <= j < scan_tokens(s).len() && scan_tokens(s)[j].part == seq![s[k]]
            && scan_tokens(s)[j].col == k + 1);
    }
}

proof fn lemma_scan_from_all_ws(s: Seq<char>, i: int, buf: Seq<char>, line: int)
    requires
        0 <= i,
        forall|k: int| i <= k < s.len() ==> is_whitespace_char(#[trigger] s[k]),
    ensures
        scan_from(s, i, buf, line) == Seq::<TokenModel>::empty(),
    decreases s.len() - i,
{
    if i < s.len() {
        if s[i] == '\n' {
            lemma_scan_from_all_ws(s, i + 1, buf, line + 1);
        } else {
            lemma_scan_from_all_ws(s, i + 1, buf, line);
        }
    }
}

proof fn lemma_scan_from_pad(t: Seq<char>, p: Seq<char>, i: int, buf: Seq<char>, line: int)
    requires
        0 <= i <= t.len(),
        forall|k: int| 0 <= k < p.len() ==> is_whitespace_char(#[trigger] p[k]),
    ensures
        scan_from(t + p, i, buf, line) == scan_from(t, i, buf, line),
    decreases t.len() - i,
{
    let s = t + p;
    if i == t.len() {
        assert forall|k: int| i <= k < s.len() implies is_whitespace_char(#[trigger] s[k]) by {
            assert(s[k] == p[k - t.len()]);
        }
        lemma_scan_from_all_ws(s, i, buf, line);
    } else {
        let c = t[i];
        assert(s[i] == c);
        assert(ends_token_at(c, char_at(s, i + 1)) == ends_token_at(c, char_at(t, i + 1))) by {
            if i + 1 < t.len() {
                assert(char_at(s, i + 1) == char_at(t, i + 1));
            } else {
                assert(is_whitespace_char(char_at(t, i + 1)));
                if i + 1 < s.len() {
                    assert(char_at(s, i + 1) == p[0]);
                }
                assert(is_whitespace_char(char_at(s, i + 1)));
            }
        }
        if c == '\n' {
            lemma_scan_from_pad(t, p, i + 1, buf, line + 1);
        } else if is_whitespace_char(c) {
            lemma_scan_from_pad(t, p, i + 1, buf, line);
        } else {
            let grown = buf.push(c);
            if ends_token_at(c, char_at(t, i + 1)) {
                lemma_scan_from_pad(t, p, i + 1, Seq::<char>::empty(), line);
            } else {
                lemma_scan_from_pad(t, p, i + 1, grown, line);
            }
        }
    }
}

/// Appending trailing whitespace — in particular the padding that
/// [`new_lexer`] adds — does not change the token sequence of a text.
pub proof fn lemma_scan_padding_irrelevant(t: Seq<char>, p: Seq<char>)
    requires
        forall|k: int| 0 <= k < p.len() ==> is_whitespace_char(#[trigger] p[k]),
    ensures
        scan_tokens(t + p) == scan_tokens(t),
{
    lemma_scan_from_pad(t, p, 0, Seq::<char>::empty(), 1);
}

/// The parts of data needed to make tokens: the text being scanned, its
/// characters, the cursor position, a three-character window around it,
/// and the tokens produced so far.
pub struct Lexer {
    pub contents: String,
    pub chars: Vec<char>,
    pub index: usize,
    pub previous_char: char,
    pub current_char: char,
    pub next_char: char,
    pub tokens: Vec<Token>,
}

/// The trailing whitespace padding that [`new_lexer`] appends, so that the
/// scan's lookahead always stays within the text.
pub open spec fn scan_padding() -> Seq<char> {
    seq![' ', ' ', ' ', ' ']
}

/// Remove the boiler plate of making a lexer object: the scanner starts
/// with the cursor at the beginning, a window of spaces, no tokens, and
/// the text extended by trailing whitespace padding.
pub fn new_lexer(contents: &str) -> (lx: Lexer)
    ensures
        lx.contents@ == contents@ + scan_padding(),
        lx.chars@ == Seq::<char>::empty(),
        lx.index == 0,
        lx.previous_char == ' ',
        lx.current_char == ' ',
        lx.next_char == ' ',
        lx.tokens@ == Seq::<Token>::empty(),
{
    let padded: String = String::from_str(contents).concat("    ");
    proof {
        reveal_strlit("    ");
        assert(padded@ =~= contents@ + scan_padding());
    }
    Lexer {
        contents: padded,
        chars: Vec::new(),
        index: 0,
        previous_char: ' ',
        current_char: ' ',
        next_char: ' ',
        tokens: Vec::new(),
    }
}

impl Lexer {
    /// Change what the characters of the window are by shifting them.
    pub fn move_pointer(&mut self)
        requires
            old(self).index < old(self).chars@.len(),
        ensures
            final(self).previous_char == old(self).current_char,
            final(self).current_char == old(self).next_char,
            final(self).next_char == old(self).chars@[old(self).index as int],
            final(self).contents == old(self).contents,
            final(self).chars == old(self).chars,
            final(self).index == old(self).index,
            final(self).tokens == old(self).tokens,
    {
        self.previous_char = self.current_char;
        self.current_char = self.next_char;
        self.next_char = self.chars[self.index];
    }

    /// Take the text's characters and push what the tokenizer returns for
    /// each part: one full scan over the padded text, producing the token
    /// sequence that [`scan_tokens`] describes.
    ///
    /// The scanner starts from the state that [`new_lexer`] builds and is
    /// consumed by the scan: it is not reusable across independent inputs
    /// without reconstruction. The text must end in two whitespace
    /// characters (the constructor's padding guarantees four), so that the
    /// lookahead never runs past the buffer.
    pub fn lexer(&mut self)
        requires
            old(self).current_char == ' ',
            old(self).next_char == ' ',
            old(self).tokens@ == Seq::<Token>::empty(),
            old(self).contents@.len() >= 2,
            is_whitespace_char(old(self).contents@[old(self).contents@.len() - 1]),
            is_whitespace_char(old(self).contents@[old(self).contents@.len() - 2]),
            old(self).contents@.len() + 2 < i64::MAX,
        ensures
            models(final(self).tokens@) == scan_tokens(old(self).contents@),
            final(self).contents@ == old(self).contents@,
    {
        let ghost s: Seq<char> = self.contents@;
        // Get all the chars from the contents of the text.
        let n: usize = self.contents.as_str().unicode_len();
        let mut chars: Vec<char> = Vec::new();
        let mut k: usize = 0;
        while k < n
            invariant
                k <= n,
                n == s.len(),
                self.contents@ == s,
                chars@ == s.take(k as int),
            decreases n - k,
        {
            let c = self.contents.as_str().get_char(k);
            chars.push(c);
            proof {
                assert(s.take(k + 1 as int) =~= s.take(k as int).push(s[k as int]));
            }
            k += 1;
        }
        self.chars = chars;
        proof {
            assert(self.chars@ =~= s);
        }

        let mut current_part: String = String::new();
        self.index = 0;
        let mut line_num: i64 = 1;
        let chars_len: usize = self.chars.len();

        while self.index < chars_len
            invariant
                self.contents@ == s,
                self.chars@ == s,
                chars_len == s.len(),
                s.len() + 2 < i64::MAX,
                self.index <= chars_len,
                self.current_char == char_at(s, self.index as int - 2),
                self.next_char == char_at(s, self.index as int - 1),
                self.index < 2 ==> self.tokens@ == Seq::<Token>::empty() && current_part@
                    == Seq::<char>::empty() && line_num == 1,
                current_part@.len() == 0 || (2 <= self.index && current_part@.len() <= self.index
                    - 1),
                1 <= line_num,
                2 <= self.index ==> line_num <= 1 + self.index - 2,
                2 <= self.index ==> models(self.tokens@) + scan_from(
                    s,
                    self.index as int - 2,
                    current_part@,
                    line_num as int,
                ) == scan_tokens(s),
            decreases chars_len - self.index,
        {
            let ghost i: int = self.index as int - 2;
            let ghost buf: Seq<char> = current_part@;
            let ghost toks: Seq<Token> = self.tokens@;
            // Check for newlines.
            if self.current_char == '\n' {
                proof {
                    assert(0 <= i < s.len() && s[i] == '\n');
                    assert(scan_from(s, i, buf, line_num as int) == scan_from(
                        s,
                        i + 1,
                        buf,
                        line_num as int + 1,
                    ));
                }
                line_num = line_num + 1;
                self.next();
                continue;
            }
            // If the character is not whitespace, push it to the current part.
            if !is_char_whitespace(self.current_char) {
                proof {
                    assert(2 <= self.index && 0 <= i < s.len());
                }
                push_char(&mut current_part, self.current_char);
                let ghost grown: Seq<char> = buf.push(s[i]);
                // If the current character or the next ends the token,
                // push the current part as a token, then reset the part.
                if ends_token(self.current_char, self.next_char) {
                    let kind = tokenize(current_part.as_str());
                    let plen: usize = current_part.as_str().unicode_len();
                    // Get size of the part for the character number.
                    let char_num: i64 = self.index as i64 - plen as i64;
                    let token = Token { part: current_part, kind, line_num, char_num };
                    self.tokens.push(token);
                    current_part = String::new();
                    proof {
                        let tm = TokenModel {
                            part: grown,
                            kind: token_kind_of(grown),
                            line: line_num as int,
                            col: i + 2 - grown.len(),
                        };
                        assert(token@ =~= tm);
                        assert(scan_from(s, i, buf, line_num as int) == seq![tm] + scan_from(
                            s,
                            i + 1,
                            Seq::<char>::empty(),
                            line_num as int,
                        ));
                        assert(models(toks.push(token)) =~= models(toks).push(token@));
                        assert(models(toks).push(tm) + scan_from(
                            s,
                            i + 1,
                            Seq::<char>::empty(),
                            line_num as int,
                        ) =~= models(toks) + (seq![tm] + scan_from(
                            s,
                            i + 1,
                            Seq::<char>::empty(),
                            line_num as int,
                        )));
                    }
                } else {
                    proof {
                        assert(scan_from(s, i, buf, line_num as int) == scan_from(
                            s,
                            i + 1,
                            grown,
                            line_num as int,
                        ));
                    }
                }
            } else {
                proof {
                    if 2 <= self.index {
                        assert(0 <= i < s.len() && is_whitespace_char(s[i]) && s[i] != '\n');
                        assert(scan_from(s, i, buf, line_num as int) == scan_from(
                            s,
                            i + 1,
                            buf,
                            line_num as int,
                        ));
                    }
                }
            }
            self.next();
        }
        proof {
            assert(self.index == s.len());
            let tail = scan_from(s, s.len() - 2, current_part@, line_num as int);
            assert(tail =~= Seq::<TokenModel>::empty()) by {
                reveal_with_fuel(scan_from, 4);
                assert(is_whitespace_char(s[s.len() - 2]));
                assert(is_whitespace_char(s[s.len() - 1]));
            }
            assert(models(self.tokens@) + tail =~= models(self.tokens@));
        }
    }

    /// Shift the window and advance the cursor by one character.
    pub fn next(&mut self)
        requires
            old(self).index < old(self).chars@.len(),
        ensures
            final(self).previous_char == old(self).current_char,
            final(self).current_char == old(self).next_char,
            final(self).next_char == old(self).chars@[old(self).index as int],
            final(self).contents == old(self).contents,
            final(self).chars == old(self).chars,
            final(self).index == old(self).index + 1,
            final(self).tokens == old(self).tokens,
    {
        // The cursor sits before the end of the character vector, whose
        // length fits a usize, so advancing it cannot overflow.
        let bound: usize = self.chars.len();
        self.move_pointer();
        assert(self.index < bound);
        self.index += 1;
    }
}

} // verus!
