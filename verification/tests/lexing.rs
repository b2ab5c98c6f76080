use letlang::lexer::lex;
use letlang::strutil::StringUtils;
use letlang::token::{Pos, Token, TokenKind};

#[test]
fn lex_empty_input_single_empty_word() {
    let tokens = lex(String::new());
    assert_eq!(tokens.len(), 1);
    assert_eq!(tokens[0].value, "");
    assert_eq!(tokens[0].kind, TokenKind::Word);
    assert_eq!(tokens[0].position.file, "main.rs");
    assert_eq!(tokens[0].position.row, 0);
    assert_eq!(tokens[0].position.col, 0);
}

#[test]
fn lex_one_token_per_segment() {
    let tokens = lex("let x be 5".to_string());
    assert_eq!(tokens.len(), 4);
    assert_eq!(tokens[0].value, "let");
    assert_eq!(tokens[0].kind, TokenKind::Keyword);
    assert_eq!(tokens[1].value, "x");
    assert_eq!(tokens[1].kind, TokenKind::Word);
    assert_eq!(tokens[2].value, "be");
    assert_eq!(tokens[2].kind, TokenKind::Keyword);
    assert_eq!(tokens[3].value, "5");
    assert_eq!(tokens[3].kind, TokenKind::Numeric);
    assert_eq!(tokens[0].position.col, 0);
    assert_eq!(tokens[1].position.col, 4);
    assert_eq!(tokens[2].position.col, 6);
    assert_eq!(tokens[3].position.col, 9);
    for t in &tokens {
        assert_eq!(t.position.file, "main.rs");
        assert_eq!(t.position.row, 0);
    }
}

#[test]
fn lex_trailing_space_gives_empty_word() {
    let tokens = lex("a b ".to_string());
    assert_eq!(tokens.len(), 3);
    assert_eq!(tokens[2].value, "");
    assert_eq!(tokens[2].kind, TokenKind::Word);
    assert_eq!(tokens[2].position.col, 4);
}

#[test]
fn lex_consecutive_spaces_give_empty_segments() {
    let tokens = lex("a  b".to_string());
    assert_eq!(tokens.len(), 3);
    assert_eq!(tokens[0].value, "a");
    assert_eq!(tokens[1].value, "");
    assert_eq!(tokens[2].value, "b");
}

#[test]
fn lex_trims_trailing_newlines_per_segment() {
    let tokens = lex("5\r\n x".to_string());
    assert_eq!(tokens.len(), 2);
    assert_eq!(tokens[0].value, "5");
    assert_eq!(tokens[0].kind, TokenKind::Numeric);
    assert_eq!(tokens[1].value, "x");
}

#[test]
fn lex_keeps_interior_newlines() {
    let tokens = lex("a\nb c".to_string());
    assert_eq!(tokens.len(), 2);
    assert_eq!(tokens[0].value, "a\nb");
    assert_eq!(tokens[0].kind, TokenKind::Word);
    assert_eq!(tokens[1].value, "c");
}

#[test]
fn trim_newlines_strips_trailing_run() {
    assert_eq!("abc\n\r\r\n".to_string().trim_newlines(), "abc");
    assert_eq!("\n\r".to_string().trim_newlines(), "");
    assert_eq!("abc".to_string().trim_newlines(), "abc");
}

#[test]
fn trim_newlines_keeps_interior() {
    assert_eq!("a\nb\r".to_string().trim_newlines(), "a\nb");
}

#[test]
fn trim_newlines_idempotent_example() {
    let once = "x\r\n\n".to_string().trim_newlines();
    assert_eq!(once.trim_newlines(), once);
}

#[test]
fn token_new_defaults() {
    let t = Token::new();
    assert_eq!(t.value, "empty_token");
    assert_eq!(t.kind, TokenKind::Word);
    assert_eq!(t.position.file, "");
    assert_eq!(t.position.row, 0);
    assert_eq!(t.position.col, 0);
}

#[test]
fn token_with_formatted_value_concatenates() {
    let t = Token::with_formatted_value(
        "x",
        ":",
        "7",
        Pos::make("f".to_string(), 1, 2),
        TokenKind::Word,
    );
    assert_eq!(t.value, "x:7");
    assert_eq!(t.position.file, "f");
    assert_eq!(t.position.row, 1);
    assert_eq!(t.position.col, 2);
    assert_eq!(t.kind, TokenKind::Word);
}

#[test]
fn pos_constructors() {
    let p = Pos::new();
    assert_eq!(p.file, "");
    assert_eq!(p.row, 0);
    assert_eq!(p.col, 0);
    let q = Pos::from_tuple(("m".to_string(), 3, 4));
    assert_eq!(q.file, "m");
    assert_eq!(q.row, 3);
    assert_eq!(q.col, 4);
    let r = Pos::make("n".to_string(), 5, 6);
    assert_eq!(r.file, "n");
    assert_eq!(r.row, 5);
    assert_eq!(r.col, 6);
}
