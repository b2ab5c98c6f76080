use vstd::prelude::*;
use vstd::string::StrSliceExecFns;
use vstd::string::StringExecFns;
use crate::classify::{determine_kind, kind_of};
use crate::strutil::{trim_newlines_spec, StringUtils};
use crate::token::{Pos, PosView, Token, TokenKind, TokenView};

verus! {

/// The token emitted for a finished segment `seg` whose first character stood
/// at column `col`: the segment with its trailing newlines trimmed, classified,
/// at row 0 of the fixed file name.
pub open spec fn segment_token(seg: Seq<char>, col: int) -> TokenView {
    TokenView {
        value: trim_newlines_spec(seg),
        position: PosView { file: "main.rs"@, row: 0u16, col: col as u16 },
        kind: kind_of(trim_newlines_spec(seg)),
    }
}

/// The tokens that lexing emits from position `i` of `text` on, where `cur`
/// is the segment collected so far and `col` the column at which it started.
/// A space finishes the current segment; every other character extends it;
/// the end of the text finishes the last segment unconditionally.
pub open spec fn lex_from(text: Seq<char>, i: int, col: int, cur: Seq<char>) -> Seq<TokenView>
    decreases text.len() - i,
{
    if i < 0 || i >= text.len() {
        seq![segment_token(cur, col)]
    } else if text[i] == ' ' {
        seq![segment_token(cur, col)] + lex_from(text, i + 1, i + 1, Seq::<char>::empty())
    } else {
        lex_from(text, i + 1, col, cur.push(text[i]))
    }
}

/// The whole token sequence of a text.
pub open spec fn lex_spec(text: Seq<char>) -> Seq<TokenView> {
    lex_from(text, 0, 0, Seq::<char>::empty())
}

/// The views of a sequence of tokens.
pub open spec fn token_views(ts: Seq<Token>) -> Seq<TokenView> {
    ts.map_values(|t: Token| t@)
}

/// The number of space characters of `text` from position `i` on.
pub open spec fn space_count(text: Seq<char>, i: int) -> int
    decreases text.len() - i,
{
    if i < 0 || i >= text.len() {
        0
    } else {
        (if text[i] == ' ' { 1int } else { 0int }) + space_count(text, i + 1)
    }
}

proof fn lemma_lex_from_count(text: Seq<char>, i: int, col: int, cur: Seq<char>)
    ensures
        lex_from(text, i, col, cur).len() == space_count(text, i) + 1,
    decreases text.len() - i,
{
    if 0 <= i < text.len() {
        if text[i] == ' ' {
            lemma_lex_from_count(text, i + 1, i + 1, Seq::<char>::empty());
        } else {
            lemma_lex_from_count(text, i + 1, col, cur.push(text[i]));
        }
    }
}

/// Lexing yields one token per space-separated segment: exactly one more
/// token than the text has space characters, whatever the text is.
pub proof fn lemma_lex_token_count(text: Seq<char>)
    ensures
        lex_spec(text).len() == space_count(text, 0) + 1,
{
    lemma_lex_from_count(text, 0, 0, Seq::<char>::empty());
}

proof fn lemma_lex_from_trailing_space(text: Seq<char>, i: int, col: int, cur: Seq<char>)
    requires
        0 <= i < text.len(),
        text.last() == ' ',
    ensures
        lex_from(text, i, col, cur).len() >= 1,
        lex_from(text, i, col, cur).last() == segment_token(
            Seq::<char>::empty(),
            text.len() as int,
        ),
    decreases text.len() - i,
{
    if i == text.len() - 1 {
        assert(text[i] == ' ');
        let rest = lex_from(text, i + 1, i + 1, Seq::<char>::empty());
        assert(rest == seq![segment_token(Seq::<char>::empty(), text.len() as int)]);
        let r = lex_from(text, i, col, cur);
        assert(r == seq![segment_token(cur, col)] + rest);
        assert(r.last() == rest[0]);
    } else {
        if text[i] == ' ' {
            lemma_lex_from_trailing_space(text, i + 1, i + 1, Seq::<char>::empty());
            let rest = lex_from(text, i + 1, i + 1, Seq::<char>::empty());
            let r = lex_from(text, i, col, cur);
            assert(r == seq![segment_token(cur, col)] + rest);
            assert(r.last() == rest[rest.len() - 1]);
        } else {
            lemma_lex_from_trailing_space(text, i + 1, col, cur.push(text[i]));
        }
    }
}

/// When the text ends in a space, its one trailing token is the empty
/// segment, of kind `Word`.
pub proof fn lemma_lex_trailing_empty_word(text: Seq<char>)
    requires
        text.len() > 0,
        text.last() == ' ',
    ensures
        lex_spec(text).last().value == Seq::<char>::empty(),
        lex_spec(text).last().kind == TokenKind::Word,
{
    lemma_lex_from_trailing_space(text, 0, 0, Seq::<char>::empty());
    crate::classify::lemma_kind_of_empty();
}

/// Lexing the empty text yields exactly one token: the empty segment,
/// classified as a `Word`, at the start of the fixed file.
pub proof fn lemma_lex_empty()
    ensures
        lex_spec(Seq::<char>::empty()) =~= seq![
            segment_token(Seq::<char>::empty(), 0),
        ],
        segment_token(Seq::<char>::empty(), 0).value == Seq::<char>::empty(),
        segment_token(Seq::<char>::empty(), 0).kind == TokenKind::Word,
{
    crate::classify::lemma_kind_of_empty();
}

/// Splits the text at every space character, trims trailing newlines from
/// each segment, and classifies it; one final token is emitted from whatever
/// remains after the last space, even when that is empty.
pub fn lex(text: String) -> (tokens: Vec<Token>)
    requires
        text@.len() <= u16::MAX,
    ensures
        token_views(tokens@) == lex_spec(text@),
        tokens@.len() >= 1,
{
    let n: usize = text.as_str().unicode_len();
    let mut tokens: Vec<Token> = Vec::new();
    let mut seg: usize = 0;
    let mut i: usize = 0;
    proof {
        assert(text@.subrange(0, 0) =~= Seq::<char>::empty());
    }
    while i < n
        invariant
            seg <= i <= n,
            n == text@.len(),
            n <= u16::MAX,
            token_views(tokens@) + lex_from(
                text@,
                i as int,
                seg as int,
                text@.subrange(seg as int, i as int),
            ) == lex_spec(text@),
        decreases n - i,
    {
        let ch = text.as_str().get_char(i);
        if ch == ' ' {
            let raw = String::from_str(text.as_str().substring_char(seg, i));
            let trimmed = raw.trim_newlines();
            let k = determine_kind(trimmed.clone());
            let t = Token::make(
                trimmed,
                Pos::from_tuple((String::from_str("main.rs"), 0, seg as u16)),
                k,
            );
            proof {
                assert(t@ == segment_token(text@.subrange(seg as int, i as int), seg as int));
            }
            tokens.push(t);
            proof {
                assert(token_views(tokens@) =~= token_views(tokens@.drop_last()).push(t@));
                assert(text@.subrange(i + 1, i + 1) =~= Seq::<char>::empty());
            }
            seg = i + 1;
        } else {
            proof {
                assert(text@.subrange(seg as int, i + 1) =~= text@.subrange(
                    seg as int,
                    i as int,
                ).push(text@[i as int]));
            }
        }
        i = i + 1;
    }
    let raw = String::from_str(text.as_str().substring_char(seg, n));
    let trimmed = raw.trim_newlines();
    let k = determine_kind(trimmed.clone());
    let t = Token::make(
        trimmed,
        Pos::from_tuple((String::from_str("main.rs"), 0, seg as u16)),
        k,
    );
    proof {
        assert(t@ == segment_token(text@.subrange(seg as int, n as int), seg as int));
    }
    tokens.push(t);
    proof {
        assert(token_views(tokens@) =~= token_views(tokens@.drop_last()).push(t@));
        assert(token_views(tokens@) =~= lex_spec(text@));
    }
    tokens
}

} // verus!
