use nusa::lexer::{tokenize, LexError, Token};

fn number_of(text: &str) -> Option<u64> {
    text.parse::<f64>().ok().map(f64::to_bits)
}

fn num(value: f64) -> Token {
    Token::Number(value.to_bits())
}

fn ident(name: &str) -> Token {
    Token::Ident(name.to_string())
}

fn text(value: &str) -> Token {
    Token::String(value.to_string())
}

fn lex(source: &str) -> Result<Vec<Token>, LexError> {
    tokenize(source, &number_of)
}

#[test]
fn tokenize_sum_of_two_numbers() {
    assert_eq!(lex("1+2"), Ok(vec![num(1.0), Token::Plus, num(2.0)]));
}

#[test]
fn tokenize_empty_source() {
    assert_eq!(lex(""), Ok(vec![]));
}

#[test]
fn tokenize_skips_whitespace() {
    assert_eq!(lex(" \t\r\n"), Ok(vec![]));
    assert_eq!(lex(" 1 \n\t+\r 2 "), Ok(vec![num(1.0), Token::Plus, num(2.0)]));
}

#[test]
fn tokenize_every_punctuation_character() {
    assert_eq!(
        lex("+-*/=(){},;"),
        Ok(vec![
            Token::Plus,
            Token::Minus,
            Token::Star,
            Token::Slash,
            Token::Equals,
            Token::LParen,
            Token::RParen,
            Token::LBrace,
            Token::RBrace,
            Token::Comma,
            Token::Semicolon,
        ])
    );
}

#[test]
fn tokenize_keywords_and_identifiers() {
    assert_eq!(
        lex("func let print funcs Let _x a_1 printx le"),
        Ok(vec![
            Token::Func,
            Token::Let,
            Token::Print,
            ident("funcs"),
            ident("Let"),
            ident("_x"),
            ident("a_1"),
            ident("printx"),
            ident("le"),
        ])
    );
}

#[test]
fn tokenize_numbers_with_fraction() {
    assert_eq!(lex("3.25"), Ok(vec![num(3.25)]));
    assert_eq!(lex("1."), Ok(vec![num(1.0)]));
    assert_eq!(lex("007"), Ok(vec![num(7.0)]));
    assert_eq!(lex("0.1+0.2"), Ok(vec![num(0.1), Token::Plus, num(0.2)]));
}

#[test]
fn tokenize_number_ends_where_digits_and_dots_end() {
    assert_eq!(lex("12ab"), Ok(vec![num(12.0), ident("ab")]));
    assert_eq!(lex("1e5"), Ok(vec![num(1.0), ident("e5")]));
}

#[test]
fn tokenize_rejects_number_with_two_dots() {
    assert_eq!(lex("1.2.3"), Err(LexError::InvalidNumber("1.2.3".to_string())));
    assert_eq!(lex("x = 1..2"), Err(LexError::InvalidNumber("1..2".to_string())));
}

#[test]
fn tokenize_hands_the_whole_run_to_the_number_reader() {
    let seen = std::cell::RefCell::new(Vec::new());
    let reader = |text: &str| {
        seen.borrow_mut().push(text.to_string());
        Some(0u64)
    };
    assert_eq!(
        tokenize("12.5+.7 8..", &reader),
        Err(LexError::InvalidChar('.'))
    );
    assert_eq!(*seen.borrow(), vec!["12.5".to_string()]);
    seen.borrow_mut().clear();
    assert_eq!(
        tokenize("12.5 8..", &reader),
        Ok(vec![Token::Number(0), Token::Number(0)])
    );
    assert_eq!(*seen.borrow(), vec!["12.5".to_string(), "8..".to_string()]);
}

#[test]
fn tokenize_first_error_wins() {
    assert_eq!(lex("1.2.3 @"), Err(LexError::InvalidNumber("1.2.3".to_string())));
    assert_eq!(lex("@ 1.2.3"), Err(LexError::InvalidChar('@')));
}

#[test]
fn tokenize_strings_in_both_quotes() {
    assert_eq!(lex("'ab'"), Ok(vec![text("ab")]));
    assert_eq!(lex("\"ab\""), Ok(vec![text("ab")]));
    assert_eq!(lex("''"), Ok(vec![text("")]));
    assert_eq!(lex("\"it's\""), Ok(vec![text("it's")]));
    assert_eq!(lex("'say \"hi\"'"), Ok(vec![text("say \"hi\"")]));
    assert_eq!(lex("'a' 'b'"), Ok(vec![text("a"), text("b")]));
}

#[test]
fn tokenize_string_keeps_what_is_inside() {
    assert_eq!(lex("'let x = 1; @ é'"), Ok(vec![text("let x = 1; @ é")]));
}

#[test]
fn tokenize_escapes() {
    assert_eq!(lex(r"'a\nb'"), Ok(vec![text("a\nb")]));
    assert_eq!(lex(r"'a\tb'"), Ok(vec![text("a\tb")]));
    assert_eq!(lex(r"'a\rb'"), Ok(vec![text("a\rb")]));
    assert_eq!(lex(r"'a\\b'"), Ok(vec![text("a\\b")]));
    assert_eq!(lex(r"'a\'b'"), Ok(vec![text("a'b")]));
    assert_eq!(lex(r#"'a\"b'"#), Ok(vec![text("a\"b")]));
    assert_eq!(lex(r#""a\"b""#), Ok(vec![text("a\"b")]));
    assert_eq!(lex(r#""a\'b""#), Ok(vec![text("a'b")]));
}

#[test]
fn tokenize_unknown_escape_copies_the_character() {
    assert_eq!(lex(r"'a\qb'"), Ok(vec![text("aqb")]));
    assert_eq!(lex(r"'\0'"), Ok(vec![text("0")]));
}

#[test]
fn tokenize_backslash_at_end_is_unterminated() {
    assert_eq!(lex("'abc\\"), Err(LexError::UnterminatedString));
    assert_eq!(lex("\"\\"), Err(LexError::UnterminatedString));
}

#[test]
fn tokenize_missing_closing_quote_yields_the_text_so_far() {
    assert_eq!(lex("'abc"), Ok(vec![text("abc")]));
    assert_eq!(lex("print \"x y"), Ok(vec![Token::Print, text("x y")]));
    assert_eq!(lex("'"), Ok(vec![text("")]));
    assert_eq!(lex(r"'a\'"), Ok(vec![text("a'")]));
}

#[test]
fn tokenize_rejects_other_characters() {
    assert_eq!(lex("@"), Err(LexError::InvalidChar('@')));
    assert_eq!(lex("a # b"), Err(LexError::InvalidChar('#')));
    assert_eq!(lex(".5"), Err(LexError::InvalidChar('.')));
    assert_eq!(lex("é"), Err(LexError::InvalidChar('é')));
    assert_eq!(lex("x \\ y"), Err(LexError::InvalidChar('\\')));
}

#[test]
fn tokenize_word_stops_at_non_ascii_letter() {
    assert_eq!(lex("abé"), Err(LexError::InvalidChar('é')));
}

#[test]
fn tokenize_statement() {
    assert_eq!(
        lex("let x = f(1, 'a');"),
        Ok(vec![
            Token::Let,
            ident("x"),
            Token::Equals,
            ident("f"),
            Token::LParen,
            num(1.0),
            Token::Comma,
            text("a"),
            Token::RParen,
            Token::Semicolon,
        ])
    );
}

#[test]
fn tokens_compare_by_kind_and_content() {
    assert_eq!(Token::Plus, Token::Plus);
    assert_ne!(Token::Plus, Token::Minus);
    assert_eq!(ident("a"), ident("a"));
    assert_ne!(ident("a"), ident("b"));
    assert_ne!(ident("a"), text("a"));
    assert_eq!(num(1.5), num(1.5));
    assert_ne!(num(1.5), num(2.5));
    assert_eq!(ident("a").clone(), ident("a"));
}

#[test]
fn lex_error_messages() {
    assert_eq!(LexError::InvalidChar('@').to_string(), "Invalid character: '@'");
    assert_eq!(
        LexError::InvalidNumber("1.2.3".to_string()).to_string(),
        "Invalid number format: '1.2.3'"
    );
    assert_eq!(LexError::UnterminatedString.to_string(), "Unterminated string literal");
}
