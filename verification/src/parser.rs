//! The statement grouper: it partitions the scanner's token sequence into
//! statements delimited by the terminator token, classifies each statement
//! by its first token, and renders it to an output string.

use vstd::prelude::*;
use vstd::string::StringExecFns;
use crate::token::{clone_token, concat_parts, models, Token, TokenKind, TokenModel};

verus! {

/// The grouper's typed error: a `set` or `print` statement without the
/// tokens that its render rule reads at fixed positions, located by the
/// line and column of the statement's first token.
#[derive(PartialEq, Eq, Structural, Clone, Copy, Debug)]
pub enum ParseError {
    MalformedStatement { line_num: i64, char_num: i64 },
}

/// The rendering of a `set` statement: the second token's text and the
/// fourth token's text joined as an assignment.
pub open spec fn render_set(stmt: Seq<TokenModel>) -> Seq<char> {
    stmt[1].part + seq![' ', '=', ' '] + stmt[3].part
}

/// The rendering of a `print` statement: a call wrapping the second
/// token's text.
pub open spec fn render_print(stmt: Seq<TokenModel>) -> Seq<char> {
    seq!['p', 'r', 'i', 'n', 't', '('] + stmt[1].part + seq![')']
}

/// The rendering of a statement with no leading keyword: every token's
/// text concatenated in order, with the last character (the terminator's
/// text) dropped.
pub open spec fn render_passthrough(stmt: Seq<TokenModel>) -> Seq<char> {
    let joined = concat_parts(stmt);
    if joined.len() > 0 {
        joined.take(joined.len() - 1)
    } else {
        joined
    }
}

/// The render rule chosen by a statement's first token, or nothing when
/// the statement is malformed: a `set` statement needs at least four
/// tokens, a `print` statement at least two.
pub open spec fn render_stmt(stmt: Seq<TokenModel>) -> Option<Seq<char>> {
    if stmt.len() == 0 {
        None
    } else if stmt[0].kind == TokenKind::KeywordSet {
        if stmt.len() >= 4 {
            Some(render_set(stmt))
        } else {
            None
        }
    } else if stmt[0].kind == TokenKind::KeywordPrint {
        if stmt.len() >= 2 {
            Some(render_print(stmt))
        } else {
            None
        }
    } else {
        Some(render_passthrough(stmt))
    }
}

/// The statements rendered from the rest of the token sequence, with
/// `cur` the tokens of the statement built so far. A statement closes at
/// each terminator token; whatever is left in `cur` when the tokens run
/// out is discarded, never forming a partial statement. A malformed
/// statement aborts the pass with its first token as the error's
/// location.
pub open spec fn group_from(ts: Seq<TokenModel>, cur: Seq<TokenModel>) -> Result<
    Seq<Seq<char>>,
    TokenModel,
>
    decreases ts.len(),
{
    if ts.len() == 0 {
        Ok(Seq::empty())
    } else {
        let grown = cur.push(ts[0]);
        if ts[0].kind == TokenKind::Terminator {
            match render_stmt(grown) {
                Some(r) => match group_from(ts.skip(1), Seq::empty()) {
                    Ok(rest) => Ok(seq![r] + rest),
                    Err(e) => Err(e),
                },
                None => Err(grown[0]),
            }
        } else {
            group_from(ts.skip(1), grown)
        }
    }
}

/// The statements rendered from a whole token sequence.
pub open spec fn group_tokens(ts: Seq<TokenModel>) -> Result<Seq<Seq<char>>, TokenModel> {
    group_from(ts, Seq::empty())
}

/// A grouping result extended at the front by already rendered
/// statements.
pub open spec fn with_prefix(pre: Seq<Seq<char>>, r: Result<Seq<Seq<char>>, TokenModel>) -> Result<
    Seq<Seq<char>>,
    TokenModel,
> {
    match r {
        Ok(rest) => Ok(pre + rest),
        Err(e) => Err(e),
    }
}

/// A token sequence without a terminator token yields no statements at
/// all, whatever statement fragment was already open.
pub proof fn lemma_group_no_terminator(ts: Seq<TokenModel>, cur: Seq<TokenModel>)
    requires
        forall|j: int| 0 <= j < ts.len() ==> (#[trigger] ts[j].kind) != TokenKind::Terminator,
    ensures
        group_from(ts, cur) == Ok::<Seq<Seq<char>>, TokenModel>(Seq::empty()),
    decreases ts.len(),
{
    if ts.len() > 0 {
        assert(ts.skip(1) =~= ts.subrange(1, ts.len() as int));
        assert forall|j: int| 0 <= j < ts.skip(1).len() implies (#[trigger] ts.skip(1)[j].kind)
            != TokenKind::Terminator by {
            assert(ts.skip(1)[j] == ts[j + 1]);
        }
        lemma_group_no_terminator(ts.skip(1), cur.push(ts[0]));
    }
}

proof fn lemma_group_from_drops_trailing(
    ts: Seq<TokenModel>,
    extra: Seq<TokenModel>,
    cur: Seq<TokenModel>,
)
    requires
        forall|j: int| 0 <= j < extra.len() ==> (#[trigger] extra[j].kind)
            != TokenKind::Terminator,
    ensures
        group_from(ts + extra, cur) == group_from(ts, cur),
    decreases ts.len(),
{
    let s = ts + extra;
    if ts.len() == 0 {
        assert(s =~= extra);
        lemma_group_no_terminator(extra, cur);
        lemma_group_no_terminator(ts, cur);
    } else {
        assert(s[0] == ts[0]);
        assert(s.skip(1) =~= ts.skip(1) + extra);
        if ts[0].kind == TokenKind::Terminator {
            lemma_group_from_drops_trailing(ts.skip(1), extra, Seq::empty());
        } else {
            lemma_group_from_drops_trailing(ts.skip(1), extra, cur.push(ts[0]));
        }
    }
}

/// Tokens after the last terminator are discarded: appending any
/// terminator-free tail to a token sequence leaves the rendered
/// statements unchanged. In particular, a source ending without a
/// trailing terminator contributes nothing for its trailing tokens, even
/// though the scanner still emits them.
pub proof fn lemma_group_drops_trailing(ts: Seq<TokenModel>, extra: Seq<TokenModel>)
    requires
        forall|j: int| 0 <= j < extra.len() ==> (#[trigger] extra[j].kind)
            != TokenKind::Terminator,
    ensures
        group_tokens(ts + extra) == group_tokens(ts),
{
    lemma_group_from_drops_trailing(ts, extra, Seq::empty());
}

/// The grouper: holds the token sequence one scan produced.
pub struct Parser {
    pub tokens: Vec<Token>,
}

impl Parser {
    /// Render a `set` statement: the pair of the second and fourth
    /// token's text joined as an assignment.
    pub fn set(&self, line: &Vec<Token>) -> (out: String)
        requires
            line@.len() >= 4,
        ensures
            out@ == render_set(models(line@)),
    {
        let mut out: String = line[1].part.clone();
        out.append(" = ");
        out.append(line[3].part.as_str());
        proof {
            reveal_strlit(" = ");
            assert(" = "@ =~= seq![' ', '=', ' ']);
            assert(models(line@)[1] == line@[1]@);
            assert(models(line@)[3] == line@[3]@);
            assert(out@ =~= render_set(models(line@)));
        }
        out
    }

    /// Render a `print` statement: a call wrapping the second token's
    /// text.
    pub fn print(&self, line: &Vec<Token>) -> (out: String)
        requires
            line@.len() >= 2,
        ensures
            out@ == render_print(models(line@)),
    {
        let mut out: String = String::from_str("print(");
        out.append(line[1].part.as_str());
        out.append(")");
        proof {
            reveal_strlit("print(");
            reveal_strlit(")");
            assert("print("@ =~= seq!['p', 'r', 'i', 'n', 't', '(']);
            assert(")"@ =~= seq![')']);
            assert(models(line@)[1] == line@[1]@);
            assert(out@ =~= render_print(models(line@)));
        }
        out
    }

    /// Render a statement with no leading keyword: concatenate every
    /// token's text and drop the last character, the terminator's text.
    pub fn passthrough(&self, line: &Vec<Token>) -> (out: String)
        ensures
            out@ == render_passthrough(models(line@)),
    {
        let mut joined: String = String::new();
        let n: usize = line.len();
        let mut j: usize = 0;
        while j < n
            invariant
                j <= n,
                n == line@.len(),
                joined@ == concat_parts(models(line@).take(j as int)),
            decreases n - j,
        {
            joined.append(line[j].part.as_str());
            proof {
                assert(models(line@).take(j + 1 as int) =~= models(line@).take(j as int).push(
                    line@[j as int]@,
                ));
                crate::token::lemma_concat_parts_snoc(
                    models(line@).take(j as int),
                    line@[j as int]@,
                );
            }
            j += 1;
        }
        proof {
            assert(models(line@).take(n as int) =~= models(line@));
        }
        let m: usize = joined.as_str().unicode_len();
        if m == 0 {
            return joined;
        }
        let clipped = joined.as_str().substring_char(0, m - 1);
        clipped.to_owned()
    }

    /// One linear pass over the token sequence: accumulate tokens into
    /// the current statement, close it at each terminator, dispatch on
    /// the first token's kind, and collect the rendered statements.
    ///
    /// A `set` or `print` statement without the tokens its render rule
    /// needs aborts the whole pass with a [`ParseError`] locating the
    /// statement's first token; tokens after the last terminator are
    /// discarded.
    pub fn parse(&self) -> (r: Result<Vec<String>, ParseError>)
        ensures
            r is Ok <==> group_tokens(models(self.tokens@)) is Ok,
            r matches Ok(lines) ==> lines.deep_view() == group_tokens(models(self.tokens@))->Ok_0,
            r matches Err(e) ==> {
                let tm = group_tokens(models(self.tokens@))->Err_0;
                e == (ParseError::MalformedStatement {
                    line_num: tm.line as i64,
                    char_num: tm.col as i64,
                }) && tm.line == tm.line as i64 && tm.col == tm.col as i64
            },
    {
        let ghost all: Seq<TokenModel> = models(self.tokens@);
        let mut current_line: Vec<Token> = Vec::new();
        let mut output_lines: Vec<String> = Vec::new();
        let n: usize = self.tokens.len();
        let mut idx: usize = 0;
        proof {
            assert(all.skip(0) =~= all);
            assert(models(current_line@) =~= Seq::<TokenModel>::empty());
            assert(output_lines.deep_view() =~= Seq::<Seq<char>>::empty());
            match group_tokens(all) {
                Ok(rest) => {
                    assert(Seq::<Seq<char>>::empty() + rest =~= rest);
                },
                Err(_) => {},
            }
        }
        while idx < n
            invariant
                idx <= n,
                n == self.tokens@.len(),
                all == models(self.tokens@),
                with_prefix(
                    output_lines.deep_view(),
                    group_from(all.skip(idx as int), models(current_line@)),
                ) == group_tokens(all),
            decreases n - idx,
        {
            let ghost cur: Seq<TokenModel> = models(current_line@);
            let ghost pre: Seq<Seq<char>> = output_lines.deep_view();
            let tok = clone_token(&self.tokens[idx]);
            let is_terminator = tok.kind == TokenKind::Terminator;
            current_line.push(tok);
            let ghost grown: Seq<TokenModel> = cur.push(all[idx as int]);
            proof {
                assert(all[idx as int] == self.tokens@[idx as int]@);
                assert(models(current_line@) =~= grown);
                assert(all.skip(idx as int)[0] == all[idx as int]);
                assert(all.skip(idx as int).skip(1) =~= all.skip(idx + 1 as int));
            }
            if is_terminator {
                let first_kind = current_line[0].kind;
                proof {
                    assert(grown[0] == current_line@[0]@);
                }
                if first_kind == TokenKind::KeywordSet {
                    if current_line.len() >= 4 {
                        let rendered = self.set(&current_line);
                        output_lines.push(rendered);
                        proof {
                            assert(output_lines.deep_view() =~= pre.push(rendered@));
                        }
                    } else {
                        let line_num = current_line[0].line_num;
                        let char_num = current_line[0].char_num;
                        return Err(ParseError::MalformedStatement { line_num, char_num });
                    }
                } else if first_kind == TokenKind::KeywordPrint {
                    if current_line.len() >= 2 {
                        let rendered = self.print(&current_line);
                        output_lines.push(rendered);
                        proof {
                            assert(output_lines.deep_view() =~= pre.push(rendered@));
                        }
                    } else {
                        let line_num = current_line[0].line_num;
                        let char_num = current_line[0].char_num;
                        return Err(ParseError::MalformedStatement { line_num, char_num });
                    }
                } else {
                    let rendered = self.passthrough(&current_line);
                    output_lines.push(rendered);
                    proof {
                        assert(output_lines.deep_view() =~= pre.push(rendered@));
                    }
                }
                current_line = Vec::new();
                proof {
                    let rendered_text = render_stmt(grown)->Some_0;
                    match group_from(all.skip(idx + 1 as int), Seq::<TokenModel>::empty()) {
                        Ok(rest) => {
                            assert(pre + (seq![rendered_text] + rest) =~= pre.push(rendered_text)
                                + rest);
                        },
                        Err(_) => {},
                    }
                    assert(models(current_line@) =~= Seq::<TokenModel>::empty());
                }
            }
            idx += 1;
        }
        proof {
            assert(all.skip(n as int) =~= Seq::<TokenModel>::empty());
            assert(output_lines.deep_view() + Seq::<Seq<char>>::empty() =~= output_lines
                .deep_view());
        }
        Ok(output_lines)
    }
}

} // verus!
