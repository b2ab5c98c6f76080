use vstd::prelude::*;
use crate::bindings::Bindings;
use crate::lexer::token_views;
use crate::strutil::str_eq;
use crate::token::{Pos, Token, TokenKind, TokenView};

verus! {

/// What a parse comes to: the finished mapping, or the index of a `let`
/// token whose follower is not a `Word`.
pub enum ParseOutcome {
    Done(Map<Seq<char>, Seq<char>>),
    FailedLet(int),
}

/// One pass of the parser from cursor `i`, with `last` the most recently
/// declared name and `acc` the mapping built so far.  The final token is
/// only ever read as a follower, never as the current token.
pub open spec fn parse_from(
    ts: Seq<TokenView>,
    i: int,
    last: Seq<char>,
    acc: Map<Seq<char>, Seq<char>>,
) -> ParseOutcome
    decreases ts.len() - i,
{
    if i < 0 || i + 1 >= ts.len() {
        ParseOutcome::Done(acc)
    } else {
        let curr = ts[i];
        let next = ts[i + 1];
        if curr.kind == TokenKind::Keyword {
            if curr.value == "let"@ {
                if next.kind != TokenKind::Word {
                    ParseOutcome::FailedLet(i)
                } else {
                    parse_from(ts, i + 2, next.value, acc)
                }
            } else if curr.value == "be"@ {
                parse_from(ts, i + 2, last, acc.insert(last, next.value))
            } else {
                parse_from(ts, i + 1, last, acc)
            }
        } else if curr.kind == TokenKind::Operator {
            if curr.value == "="@ {
                parse_from(ts, i + 2, last, acc.insert(last, next.value))
            } else {
                parse_from(ts, i + 1, last, acc)
            }
        } else {
            parse_from(ts, i + 1, last, acc)
        }
    }
}

/// The outcome of parsing a whole token sequence: the cursor starts at 0,
/// the last declared name starts empty, the mapping starts empty.
pub open spec fn parse_spec(ts: Seq<TokenView>) -> ParseOutcome {
    parse_from(ts, 0, Seq::<char>::empty(), Map::<Seq<char>, Seq<char>>::empty())
}

/// A single token is never inspected as a current token: parsing any
/// one-token sequence takes no step and yields the empty mapping.
pub proof fn lemma_parse_single_token(t: TokenView)
    ensures
        parse_spec(seq![t]) == ParseOutcome::Done(Map::<Seq<char>, Seq<char>>::empty()),
{
}

/// The one fatal condition of the grammar: a `let` keyword whose following
/// token is not a `Word`.  Carries the offending position and the unexpected
/// token's value and kind.
#[derive(Debug)]
pub struct ParseError {
    pub position: Pos,
    pub value: String,
    pub kind: TokenKind,
}

/// Interprets the token stream as statements and builds the final mapping,
/// last write winning.  Returns the error exactly when the run of the
/// grammar hits a `let` whose follower is not a `Word`; the error reports
/// that `let`'s position and the follower's value and kind.
pub fn parse(tokens: Vec<Token>) -> (r: Result<Bindings, ParseError>)
    requires
        tokens@.len() >= 1,
    ensures
        match r {
            Ok(b) => b.wf() && parse_spec(token_views(tokens@)) == ParseOutcome::Done(b@),
            Err(e) => parse_spec(token_views(tokens@)) matches ParseOutcome::FailedLet(i) && {
                &&& 0 <= i && i + 1 < tokens@.len()
                &&& tokens@[i]@.kind == TokenKind::Keyword
                &&& tokens@[i]@.value == "let"@
                &&& tokens@[i + 1]@.kind != TokenKind::Word
                &&& e.position@ == tokens@[i]@.position
                &&& e.value@ == tokens@[i + 1]@.value
                &&& e.kind == tokens@[i + 1]@.kind
            },
        },
{
    let ghost ts = token_views(tokens@);
    let n: usize = tokens.len();
    let mut t_id: usize = 0;
    let mut bindings = Bindings::new();
    let mut last_key = String::new();
    while t_id < n - 1
        invariant
            1 <= n,
            t_id <= n,
            n == tokens@.len(),
            ts == token_views(tokens@),
            bindings.wf(),
            parse_from(ts, t_id as int, last_key@, bindings@) == parse_spec(ts),
        decreases n - t_id,
    {
        let curr = &tokens[t_id];
        let next = &tokens[t_id + 1];
        proof {
            assert(ts[t_id as int] == curr@);
            assert(ts[t_id + 1] == next@);
            reveal_strlit("let");
            reveal_strlit("be");
            reveal_strlit("=");
            assert("let"@.len() == 3);
            assert("be"@.len() == 2);
            assert("let"@ != "be"@);
        }
        if curr.kind == TokenKind::Keyword {
            let mut advanced = false;
            if str_eq(curr.value.as_str(), "let") {
                if next.kind != TokenKind::Word {
                    let position = Pos::make(
                        curr.position.file.clone(),
                        curr.position.row,
                        curr.position.col,
                    );
                    let value = next.value.clone();
                    return Err(ParseError { position, value, kind: next.kind });
                }
                last_key = next.value.clone();
                t_id = t_id + 2;
                advanced = true;
            }
            if str_eq(curr.value.as_str(), "be") {
                bindings.insert(last_key.clone(), next.value.clone());
                t_id = t_id + 2;
                advanced = true;
            }
            if !advanced {
                t_id = t_id + 1;
            }
        } else if curr.kind == TokenKind::Operator {
            if str_eq(curr.value.as_str(), "=") {
                bindings.insert(last_key.clone(), next.value.clone());
                t_id = t_id + 2;
            } else {
                t_id = t_id + 1;
            }
        } else {
            t_id = t_id + 1;
        }
    }
    Ok(bindings)
}

} // verus!
