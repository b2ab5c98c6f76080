use letlang::bindings::Bindings;
use letlang::lexer::lex;
use letlang::parser::parse;
use letlang::token::TokenKind;

#[test]
fn let_binds_name_to_value() {
    let vars = parse(lex("let x be 5".to_string())).unwrap();
    assert_eq!(vars.len(), 1);
    assert_eq!(vars.get("x").unwrap().as_str(), "5");
    assert!(vars.get("y").is_none());
}

#[test]
fn assignment_overwrites_last_write_wins() {
    let vars = parse(lex("let x be 5 x = 10".to_string())).unwrap();
    assert_eq!(vars.len(), 1);
    assert_eq!(vars.get("x").unwrap().as_str(), "10");
}

#[test]
fn value_is_literal_next_token() {
    let vars = parse(lex("let x be 5\n let y be x".to_string())).unwrap();
    assert_eq!(vars.len(), 2);
    assert_eq!(vars.get("x").unwrap().as_str(), "5");
    assert_eq!(vars.get("y").unwrap().as_str(), "x");
}

#[test]
fn let_followed_by_keyword_is_fatal() {
    let err = parse(lex("let be 5".to_string())).unwrap_err();
    assert_eq!(err.value, "be");
    assert_eq!(err.kind, TokenKind::Keyword);
    assert_eq!(err.position.file, "main.rs");
    assert_eq!(err.position.row, 0);
    assert_eq!(err.position.col, 0);
}

#[test]
fn let_followed_by_numeric_is_fatal() {
    let err = parse(lex("x = 1 let 5 be 2".to_string())).unwrap_err();
    assert_eq!(err.value, "5");
    assert_eq!(err.kind, TokenKind::Numeric);
    assert_eq!(err.position.col, 6);
}

#[test]
fn empty_input_empty_mapping() {
    let vars = parse(lex(String::new())).unwrap();
    assert_eq!(vars.len(), 0);
}

#[test]
fn stray_tokens_are_skipped() {
    let vars = parse(lex("junk 7 let x = 9".to_string())).unwrap();
    assert_eq!(vars.len(), 1);
    assert_eq!(vars.get("x").unwrap().as_str(), "9");
}

#[test]
fn stray_be_binds_empty_name() {
    let vars = parse(lex("be 5".to_string())).unwrap();
    assert_eq!(vars.len(), 1);
    assert_eq!(vars.get("").unwrap().as_str(), "5");
}

#[test]
fn unmatched_operator_is_skipped() {
    let vars = parse(lex("+ x".to_string())).unwrap();
    assert_eq!(vars.len(), 0);
}

#[test]
fn trailing_token_is_never_current() {
    // the final token is only ever read as a follower: a lone trailing `be`
    // has no follower and binds nothing
    let vars = parse(lex("let x be 5 be".to_string())).unwrap();
    assert_eq!(vars.len(), 1);
    assert_eq!(vars.get("x").unwrap().as_str(), "5");
}

#[test]
fn unmatched_keyword_is_skipped() {
    let vars = parse(lex("fn x".to_string())).unwrap();
    assert_eq!(vars.len(), 0);
}

#[test]
fn newline_alone_does_not_delimit() {
    // only the space splits segments: `5\nlet` is one Word token, so the
    // later `be` still binds the name declared by the first `let`
    let vars = parse(lex("let x be 5\nlet y be x".to_string())).unwrap();
    assert_eq!(vars.len(), 1);
    assert_eq!(vars.get("x").unwrap().as_str(), "x");
}

#[test]
fn bindings_insert_and_get() {
    let mut b = Bindings::new();
    assert_eq!(b.len(), 0);
    b.insert("k".to_string(), "1".to_string());
    b.insert("k".to_string(), "2".to_string());
    b.insert("m".to_string(), "3".to_string());
    assert_eq!(b.len(), 2);
    assert_eq!(b.get("k").unwrap().as_str(), "2");
    assert_eq!(b.get("m").unwrap().as_str(), "3");
    assert!(b.get("absent").is_none());
    let entries = b.entries();
    assert_eq!(entries.len(), 2);
}

#[test]
fn sample_program_pipeline() {
    let source = "let it be 0.654876418768547946\n let\n\r hex be 0xfb00belet a be hex";
    let vars = parse(lex(source.to_string())).unwrap();
    assert_eq!(vars.len(), 2);
    assert_eq!(vars.get("it").unwrap().as_str(), "0.654876418768547946");
    assert_eq!(vars.get("hex").unwrap().as_str(), "hex");
}
