use somescheme::error::CompileError;
use somescheme::lexer::{tokenize, Token};

fn word(w: &str, at: usize) -> Token {
    Token::Word(w.to_string(), at)
}

#[test]
fn empty_text_has_no_tokens() {
    assert_eq!(tokenize(""), Ok(vec![]));
    assert_eq!(tokenize("  \n\t\r "), Ok(vec![]));
}

#[test]
fn parentheses_are_tokens_with_their_positions() {
    assert_eq!(tokenize("()"), Ok(vec![Token::Open(0), Token::Close(1)]));
    assert_eq!(tokenize(" ( ) "), Ok(vec![Token::Open(1), Token::Close(3)]));
}

#[test]
fn words_end_at_delimiters() {
    assert_eq!(
        tokenize("(+ abc null?)"),
        Ok(vec![Token::Open(0), word("+", 1), word("abc", 3), word("null?", 7), Token::Close(12)])
    );
    assert_eq!(tokenize("a(b"), Ok(vec![word("a", 0), Token::Open(1), word("b", 2)]));
}

#[test]
fn numbers_are_read_in_decimal() {
    assert_eq!(tokenize("0"), Ok(vec![Token::Int(0, 0)]));
    assert_eq!(tokenize("42 -7"), Ok(vec![Token::Int(42, 0), Token::Int(-7, 3)]));
    assert_eq!(tokenize("007"), Ok(vec![Token::Int(7, 0)]));
}

#[test]
fn largest_and_smallest_numbers_are_read() {
    assert_eq!(tokenize("9223372036854775807"), Ok(vec![Token::Int(i64::MAX, 0)]));
    assert_eq!(tokenize("-9223372036854775808"), Ok(vec![Token::Int(i64::MIN, 0)]));
}

#[test]
fn numbers_out_of_range_are_refused_at_their_position() {
    assert_eq!(tokenize("9223372036854775808"), Err(CompileError::Parse(0)));
    assert_eq!(tokenize("(f -9223372036854775809)"), Err(CompileError::Parse(3)));
    assert_eq!(tokenize("  99999999999999999999999"), Err(CompileError::Parse(2)));
}

#[test]
fn a_minus_sign_alone_is_a_word() {
    assert_eq!(tokenize("-"), Ok(vec![word("-", 0)]));
    assert_eq!(tokenize("(- 3 1)").unwrap()[1], word("-", 1));
}

#[test]
fn digits_followed_by_letters_are_a_word() {
    assert_eq!(tokenize("12ab"), Ok(vec![word("12ab", 0)]));
    assert_eq!(tokenize("-x1"), Ok(vec![word("-x1", 0)]));
    assert_eq!(tokenize("1-2"), Ok(vec![word("1-2", 0)]));
}

#[test]
fn strings_keep_their_text_as_written() {
    assert_eq!(tokenize("\"yes\""), Ok(vec![Token::Str("yes".to_string(), 0)]));
    assert_eq!(tokenize("\"\""), Ok(vec![Token::Str(String::new(), 0)]));
    assert_eq!(tokenize("\"a b(c)\""), Ok(vec![Token::Str("a b(c)".to_string(), 0)]));
}

#[test]
fn a_backslash_takes_the_next_character_along() {
    assert_eq!(tokenize("\"a\\\"b\""), Ok(vec![Token::Str("a\\\"b".to_string(), 0)]));
    assert_eq!(tokenize("\"a\\nb\""), Ok(vec![Token::Str("a\\nb".to_string(), 0)]));
    assert_eq!(tokenize("\"\\\\\""), Ok(vec![Token::Str("\\\\".to_string(), 0)]));
}

#[test]
fn a_string_without_its_closing_quote_is_refused() {
    assert_eq!(tokenize("\"open"), Err(CompileError::Parse(0)));
    assert_eq!(tokenize("(f \"x\\\")"), Err(CompileError::Parse(3)));
    assert_eq!(tokenize("\"a\\"), Err(CompileError::Parse(0)));
}

#[test]
fn a_string_ends_the_word_before_it() {
    assert_eq!(tokenize("ab\"c\""), Ok(vec![word("ab", 0), Token::Str("c".to_string(), 2)]));
}

#[test]
fn positions_count_characters_not_bytes() {
    assert_eq!(
        tokenize("\"\u{e9}\u{e9}\" x"),
        Ok(vec![Token::Str("\u{e9}\u{e9}".to_string(), 0), word("x", 5)])
    );
}
