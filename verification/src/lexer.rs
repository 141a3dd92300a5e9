//! The lexer: from source text to tokens.
//!
//! [`lex`] defines, for every source text, the tokens it holds or the first
//! error in it. [`tokenize`] computes exactly that.
use vstd::prelude::*;
use vstd::std_specs::cmp::PartialEqSpecImpl;
use crate::number::{reads_any, NumberModel};
use crate::text::{chars_of, string_of};

verus! {

/// A lexical unit. A number holds the bit pattern of its value, a string
/// its decoded text.
#[derive(Debug, Clone)]
pub enum Token {
    Func,
    Let,
    Print,
    Ident(String),
    Number(u64),
    String(String),
    Plus,
    Minus,
    Star,
    Slash,
    Equals,
    LParen,
    RParen,
    LBrace,
    RBrace,
    Comma,
    Semicolon,
}

/// The view of a [`Token`].
pub ghost enum TokenView {
    Func,
    Let,
    Print,
    Ident(Seq<char>),
    Number(u64),
    String(Seq<char>),
    Plus,
    Minus,
    Star,
    Slash,
    Equals,
    LParen,
    RParen,
    LBrace,
    RBrace,
    Comma,
    Semicolon,
}

impl View for Token {
    type V = TokenView;

    open spec fn view(&self) -> TokenView {
        match self {
            Token::Func => TokenView::Func,
            Token::Let => TokenView::Let,
            Token::Print => TokenView::Print,
            Token::Ident(name) => TokenView::Ident(name@),
            Token::Number(n) => TokenView::Number(*n),
            Token::String(text) => TokenView::String(text@),
            Token::Plus => TokenView::Plus,
            Token::Minus => TokenView::Minus,
            Token::Star => TokenView::Star,
            Token::Slash => TokenView::Slash,
            Token::Equals => TokenView::Equals,
            Token::LParen => TokenView::LParen,
            Token::RParen => TokenView::RParen,
            Token::LBrace => TokenView::LBrace,
            Token::RBrace => TokenView::RBrace,
            Token::Comma => TokenView::Comma,
            Token::Semicolon => TokenView::Semicolon,
        }
    }
}

impl PartialEq for Token {
    fn eq(&self, other: &Self) -> (r: bool) {
        match (self, other) {
            (Token::Func, Token::Func) => true,
            (Token::Let, Token::Let) => true,
            (Token::Print, Token::Print) => true,
            (Token::Ident(a), Token::Ident(b)) => *a == *b,
            (Token::Number(a), Token::Number(b)) => *a == *b,
            (Token::String(a), Token::String(b)) => *a == *b,
            (Token::Plus, Token::Plus) => true,
            (Token::Minus, Token::Minus) => true,
            (Token::Star, Token::Star) => true,
            (Token::Slash, Token::Slash) => true,
            (Token::Equals, Token::Equals) => true,
            (Token::LParen, Token::LParen) => true,
            (Token::RParen, Token::RParen) => true,
            (Token::LBrace, Token::LBrace) => true,
            (Token::RBrace, Token::RBrace) => true,
            (Token::Comma, Token::Comma) => true,
            (Token::Semicolon, Token::Semicolon) => true,
            _ => false,
        }
    }
}

impl PartialEqSpecImpl for Token {
    open spec fn obeys_eq_spec() -> bool {
        true
    }

    open spec fn eq_spec(&self, other: &Self) -> bool {
        self@ == other@
    }
}

/// The views of a sequence of tokens, in order.
pub open spec fn tokens_view(tokens: Seq<Token>) -> Seq<TokenView> {
    tokens.map_values(|t: Token| t@)
}

/// Why a source text holds no token sequence.
#[derive(Debug, PartialEq)]
pub enum LexError {
    /// A character that starts no token.
    InvalidChar(char),
    /// A run of digits and dots that is no number; it holds the run.
    InvalidNumber(String),
    /// The text ends right after a backslash inside a string literal.
    UnterminatedString,
}

/// The view of a [`LexError`].
pub ghost enum LexErrorView {
    InvalidChar(char),
    InvalidNumber(Seq<char>),
    UnterminatedString,
}

impl View for LexError {
    type V = LexErrorView;

    open spec fn view(&self) -> LexErrorView {
        match self {
            LexError::InvalidChar(c) => LexErrorView::InvalidChar(*c),
            LexError::InvalidNumber(text) => LexErrorView::InvalidNumber(text@),
            LexError::UnterminatedString => LexErrorView::UnterminatedString,
        }
    }
}

/// The message that describes a lexical error.
pub open spec fn lex_error_message(e: LexErrorView) -> Seq<char> {
    match e {
        LexErrorView::InvalidChar(c) => "Invalid character: '"@.push(c).push('\''),
        LexErrorView::InvalidNumber(text) => ("Invalid number format: '"@ + text).push('\''),
        LexErrorView::UnterminatedString => "Unterminated string literal"@,
    }
}

impl LexError {
    /// The message that describes this error.
    pub fn to_string(&self) -> (message: String)
        ensures
            message@ == lex_error_message(self@),
    {
        match self {
            LexError::InvalidChar(c) => {
                let mut message = string_of("Invalid character: '");
                message.push(*c);
                message.push('\'');
                message
            },
            LexError::InvalidNumber(text) => {
                let mut message = string_of("Invalid number format: '");
                message.append(text.as_str());
                message.push('\'');
                message
            },
            LexError::UnterminatedString => string_of("Unterminated string literal"),
        }
    }
}

/// Space, line feed, carriage return and tab separate tokens.
pub open spec fn is_space(c: char) -> bool {
    c == ' ' || c == '\n' || c == '\r' || c == '\t'
}

/// An ASCII decimal digit.
pub open spec fn is_digit(c: char) -> bool {
    '0' <= c && c <= '9'
}

/// An ASCII letter.
pub open spec fn is_letter(c: char) -> bool {
    ('a' <= c && c <= 'z') || ('A' <= c && c <= 'Z')
}

/// A character that may continue a numeric literal.
pub open spec fn in_number(c: char) -> bool {
    is_digit(c) || c == '.'
}

/// A character that may continue an identifier.
pub open spec fn in_word(c: char) -> bool {
    is_letter(c) || is_digit(c) || c == '_'
}

/// The token that a punctuation character is, if it is one.
pub open spec fn punctuation(c: char) -> Option<TokenView> {
    if c == '+' {
        Some(TokenView::Plus)
    } else if c == '-' {
        Some(TokenView::Minus)
    } else if c == '*' {
        Some(TokenView::Star)
    } else if c == '/' {
        Some(TokenView::Slash)
    } else if c == '=' {
        Some(TokenView::Equals)
    } else if c == '(' {
        Some(TokenView::LParen)
    } else if c == ')' {
        Some(TokenView::RParen)
    } else if c == '{' {
        Some(TokenView::LBrace)
    } else if c == '}' {
        Some(TokenView::RBrace)
    } else if c == ',' {
        Some(TokenView::Comma)
    } else if c == ';' {
        Some(TokenView::Semicolon)
    } else {
        None
    }
}

/// Where the run of digits and dots that begins at `i` ends.
pub open spec fn number_end(s: Seq<char>, i: int) -> int
    decreases s.len() - i,
{
    if 0 <= i < s.len() && in_number(s[i]) {
        number_end(s, i + 1)
    } else {
        i
    }
}

/// Where the run of letters, digits and underscores that begins at `i` ends.
pub open spec fn word_end(s: Seq<char>, i: int) -> int
    decreases s.len() - i,
{
    if 0 <= i < s.len() && in_word(s[i]) {
        word_end(s, i + 1)
    } else {
        i
    }
}

/// The token that a word is: a keyword if it is spelled like one, else an
/// identifier.
pub open spec fn word(text: Seq<char>) -> TokenView {
    if text == seq!['f', 'u', 'n', 'c'] {
        TokenView::Func
    } else if text == seq!['l', 'e', 't'] {
        TokenView::Let
    } else if text == seq!['p', 'r', 'i', 'n', 't'] {
        TokenView::Print
    } else {
        TokenView::Ident(text)
    }
}

/// The character that stands after a backslash for `c`: `n`, `t` and `r`
/// name line feed, tab and carriage return, any other character names
/// itself.
pub open spec fn unescape(c: char) -> char {
    if c == 'n' {
        '\n'
    } else if c == 't' {
        '\t'
    } else if c == 'r' {
        '\r'
    } else {
        c
    }
}

/// `rest` with `prefix` put in front of its text.
pub open spec fn with_text(prefix: Seq<char>, rest: Result<(Seq<char>, int), LexErrorView>) -> Result<
    (Seq<char>, int),
    LexErrorView,
> {
    match rest {
        Ok((text, end)) => Ok((prefix + text, end)),
        Err(e) => Err(e),
    }
}

/// The body of a string literal whose opening quote stands just before `i`:
/// its decoded text and the position after it.
///
/// The literal ends at the first `quote` that no backslash precedes, or at
/// the end of the text if there is none. Only a backslash that is the last
/// character of the text is an error.
pub open spec fn quoted(s: Seq<char>, i: int, quote: char) -> Result<(Seq<char>, int), LexErrorView>
    decreases s.len() - i,
{
    if !(0 <= i < s.len()) {
        Ok((Seq::empty(), i))
    } else if s[i] == quote {
        Ok((Seq::empty(), i + 1))
    } else if s[i] == '\\' {
        if i + 1 >= s.len() {
            Err(LexErrorView::UnterminatedString)
        } else {
            with_text(seq![unescape(s[i + 1])], quoted(s, i + 2, quote))
        }
    } else {
        with_text(seq![s[i]], quoted(s, i + 1, quote))
    }
}

/// `rest` with `prefix` put in front of its tokens.
pub open spec fn with_tokens(
    prefix: Seq<TokenView>,
    rest: Result<Seq<TokenView>, LexErrorView>,
) -> Result<Seq<TokenView>, LexErrorView> {
    match rest {
        Ok(tokens) => Ok(prefix + tokens),
        Err(e) => Err(e),
    }
}

/// A run of digits and dots ends at or after its start, inside the text.
pub proof fn lemma_number_end_bounds(s: Seq<char>, i: int)
    requires
        0 <= i <= s.len(),
    ensures
        i <= number_end(s, i) <= s.len(),
        0 <= i < s.len() && in_number(s[i]) ==> i < number_end(s, i),
    decreases s.len() - i,
{
    if i < s.len() && in_number(s[i]) {
        lemma_number_end_bounds(s, i + 1);
    }
}

/// A run of letters, digits and underscores ends at or after its start,
/// inside the text.
pub proof fn lemma_word_end_bounds(s: Seq<char>, i: int)
    requires
        0 <= i <= s.len(),
    ensures
        i <= word_end(s, i) <= s.len(),
        0 <= i < s.len() && in_word(s[i]) ==> i < word_end(s, i),
    decreases s.len() - i,
{
    if i < s.len() && in_word(s[i]) {
        lemma_word_end_bounds(s, i + 1);
    }
}

/// A string literal ends at or after the start of its body, inside the
/// text.
pub proof fn lemma_quoted_bounds(s: Seq<char>, i: int, quote: char)
    requires
        0 <= i <= s.len(),
    ensures
        quoted(s, i, quote) matches Ok((_, end)) ==> i <= end <= s.len(),
    decreases s.len() - i,
{
    if i < s.len() && s[i] != quote {
        if s[i] == '\\' {
            if i + 1 < s.len() {
                lemma_quoted_bounds(s, i + 2, quote);
            }
        } else {
            lemma_quoted_bounds(s, i + 1, quote);
        }
    }
}

/// The tokens of `s` from position `i` on, or the first error met there.
///
/// * Space, tab, carriage return and line feed produce nothing.
/// * Each of `+ - * / = ( ) { } , ;` is one token.
/// * A digit starts a number: the whole run of digits and dots is handed
///   to the model, and is an invalid number if the model reads none in it.
/// * A letter or an underscore starts a word: the whole run of letters,
///   digits and underscores, a keyword or an identifier.
/// * A single or double quote starts a string literal.
/// * Any other character is invalid.
pub open spec fn lex(m: NumberModel, s: Seq<char>, i: int) -> Result<Seq<TokenView>, LexErrorView>
    decreases s.len() - i,
{
    if !(0 <= i < s.len()) {
        Ok(Seq::empty())
    } else {
        let c = s[i];
        if is_space(c) {
            lex(m, s, i + 1)
        } else if punctuation(c) is Some {
            with_tokens(seq![punctuation(c)->0], lex(m, s, i + 1))
        } else if is_digit(c) {
            let end = number_end(s, i);
            let text = s.subrange(i, end);
            match (m.read)(text) {
                Some(n) => {
                    proof {
                        lemma_number_end_bounds(s, i);
                    }
                    with_tokens(seq![TokenView::Number(n)], lex(m, s, end))
                },
                None => Err(LexErrorView::InvalidNumber(text)),
            }
        } else if is_letter(c) || c == '_' {
            let end = word_end(s, i);
            proof {
                lemma_word_end_bounds(s, i);
            }
            with_tokens(seq![word(s.subrange(i, end))], lex(m, s, end))
        } else if c == '\'' || c == '"' {
            match quoted(s, i + 1, c) {
                Ok((text, end)) => {
                    proof {
                        lemma_quoted_bounds(s, i + 1, c);
                    }
                    with_tokens(seq![TokenView::String(text)], lex(m, s, end))
                },
                Err(e) => Err(e),
            }
        } else {
            Err(LexErrorView::InvalidChar(c))
        }
    }
}

/// What [`tokenize`] returned, as a result over views.
pub open spec fn lexed(r: Result<Vec<Token>, LexError>) -> Result<Seq<TokenView>, LexErrorView> {
    match r {
        Ok(tokens) => Ok(tokens_view(tokens@)),
        Err(e) => Err(e@),
    }
}

/// Putting a token after a prefix, then more tokens, is putting the longer
/// prefix before those.
pub proof fn lemma_with_tokens_push(
    prefix: Seq<TokenView>,
    token: TokenView,
    rest: Result<Seq<TokenView>, LexErrorView>,
)
    ensures
        with_tokens(prefix, with_tokens(seq![token], rest)) == with_tokens(prefix.push(token), rest),
{
    if let Ok(tokens) = rest {
        assert(prefix + (seq![token] + tokens) =~= prefix.push(token) + tokens);
    }
}

/// Putting a character after a prefix, then more text, is putting the
/// longer prefix before that.
pub proof fn lemma_with_text_push(
    prefix: Seq<char>,
    c: char,
    rest: Result<(Seq<char>, int), LexErrorView>,
)
    ensures
        with_text(prefix, with_text(seq![c], rest)) == with_text(prefix.push(c), rest),
{
    if let Ok((text, end)) = rest {
        assert(prefix + (seq![c] + text) =~= prefix.push(c) + text);
    }
}

fn is_space_char(c: char) -> (r: bool)
    ensures
        r == is_space(c),
{
    c == ' ' || c == '\n' || c == '\r' || c == '\t'
}

fn is_digit_char(c: char) -> (r: bool)
    ensures
        r == is_digit(c),
{
    '0' <= c && c <= '9'
}

fn is_letter_char(c: char) -> (r: bool)
    ensures
        r == is_letter(c),
{
    ('a' <= c && c <= 'z') || ('A' <= c && c <= 'Z')
}

fn punctuation_token(c: char) -> (r: Option<Token>)
    ensures
        match r {
            Some(t) => punctuation(c) == Some(t@),
            None => punctuation(c) is None,
        },
{
    if c == '+' {
        Some(Token::Plus)
    } else if c == '-' {
        Some(Token::Minus)
    } else if c == '*' {
        Some(Token::Star)
    } else if c == '/' {
        Some(Token::Slash)
    } else if c == '=' {
        Some(Token::Equals)
    } else if c == '(' {
        Some(Token::LParen)
    } else if c == ')' {
        Some(Token::RParen)
    } else if c == '{' {
        Some(Token::LBrace)
    } else if c == '}' {
        Some(Token::RBrace)
    } else if c == ',' {
        Some(Token::Comma)
    } else if c == ';' {
        Some(Token::Semicolon)
    } else {
        None
    }
}

fn unescape_char(c: char) -> (r: char)
    ensures
        r == unescape(c),
{
    if c == 'n' {
        '\n'
    } else if c == 't' {
        '\t'
    } else if c == 'r' {
        '\r'
    } else {
        c
    }
}

/// Collects the run of digits and dots that begins at `start`.
fn scan_number(chars: &Vec<char>, start: usize) -> (r: (String, usize))
    requires
        start <= chars.len(),
    ensures
        r.1 == number_end(chars@, start as int),
        start <= r.1 <= chars.len(),
        r.0@ == chars@.subrange(start as int, r.1 as int),
{
    let mut text = String::new();
    let mut end: usize = start;
    while end < chars.len() && (is_digit_char(chars[end]) || chars[end] == '.')
        invariant
            start <= end <= chars.len(),
            number_end(chars@, start as int) == number_end(chars@, end as int),
            text@ == chars@.subrange(start as int, end as int),
        decreases chars.len() - end,
    {
        text.push(chars[end]);
        assert(chars@.subrange(start as int, end as int).push(chars@[end as int])
            =~= chars@.subrange(start as int, end + 1));
        end += 1;
    }
    (text, end)
}

/// Collects the run of letters, digits and underscores that begins at
/// `start`, and tells which word it is.
fn scan_word(chars: &Vec<char>, start: usize) -> (r: (Token, usize))
    requires
        start <= chars.len(),
    ensures
        r.1 == word_end(chars@, start as int),
        start <= r.1 <= chars.len(),
        r.0@ == word(chars@.subrange(start as int, r.1 as int)),
{
    let mut text = String::new();
    let mut end: usize = start;
    while end < chars.len() && (is_letter_char(chars[end]) || is_digit_char(chars[end])
        || chars[end] == '_')
        invariant
            start <= end <= chars.len(),
            word_end(chars@, start as int) == word_end(chars@, end as int),
            text@ == chars@.subrange(start as int, end as int),
        decreases chars.len() - end,
    {
        text.push(chars[end]);
        assert(chars@.subrange(start as int, end as int).push(chars@[end as int])
            =~= chars@.subrange(start as int, end + 1));
        end += 1;
    }
    let n: usize = end - start;
    let token = if n == 4 && chars[start] == 'f' && chars[start + 1] == 'u' && chars[start + 2]
        == 'n' && chars[start + 3] == 'c' {
        assert(text@ =~= seq!['f', 'u', 'n', 'c']);
        Token::Func
    } else if n == 3 && chars[start] == 'l' && chars[start + 1] == 'e' && chars[start + 2] == 't' {
        assert(text@ =~= seq!['l', 'e', 't']);
        Token::Let
    } else if n == 5 && chars[start] == 'p' && chars[start + 1] == 'r' && chars[start + 2] == 'i'
        && chars[start + 3] == 'n' && chars[start + 4] == 't' {
        assert(text@ =~= seq!['p', 'r', 'i', 'n', 't']);
        Token::Print
    } else {
        proof {
            let func = seq!['f', 'u', 'n', 'c'];
            let let_ = seq!['l', 'e', 't'];
            let print = seq!['p', 'r', 'i', 'n', 't'];
            if text@ == func {
                assert(text@[0] == func[0] && text@[1] == func[1] && text@[2] == func[2]
                    && text@[3] == func[3]);
            }
            if text@ == let_ {
                assert(text@[0] == let_[0] && text@[1] == let_[1] && text@[2] == let_[2]);
            }
            if text@ == print {
                assert(text@[0] == print[0] && text@[1] == print[1] && text@[2] == print[2]
                    && text@[3] == print[3] && text@[4] == print[4]);
            }
        }
        Token::Ident(text)
    };
    (token, end)
}

/// Decodes the body of a string literal that begins at `start`, just after
/// its opening `quote`.
fn scan_string(chars: &Vec<char>, start: usize, quote: char) -> (r: Result<(String, usize), LexError>)
    requires
        start <= chars.len(),
    ensures
        match r {
            Ok((text, end)) => quoted(chars@, start as int, quote) == Ok::<_, LexErrorView>(
                (text@, end as int),
            ) && start <= end <= chars.len(),
            Err(e) => quoted(chars@, start as int, quote) == Err::<(Seq<char>, int), _>(e@),
        },
{
    let mut text = String::new();
    let mut at: usize = start;
    while at < chars.len()
        invariant
            start <= at <= chars.len(),
            quoted(chars@, start as int, quote) == with_text(text@, quoted(chars@, at as int, quote)),
        decreases chars.len() - at,
    {
        let c = chars[at];
        if c == quote {
            assert(text@ + Seq::<char>::empty() =~= text@);
            return Ok((text, at + 1));
        } else if c == '\\' {
            if at + 1 < chars.len() {
                let escaped = unescape_char(chars[at + 1]);
                proof {
                    lemma_with_text_push(text@, escaped, quoted(chars@, at + 2, quote));
                }
                text.push(escaped);
                at += 2;
            } else {
                return Err(LexError::UnterminatedString);
            }
        } else {
            proof {
                lemma_with_text_push(text@, c, quoted(chars@, at + 1, quote));
            }
            text.push(c);
            at += 1;
        }
    }
    assert(text@ + Seq::<char>::empty() =~= text@);
    Ok((text, at))
}

/// The tokens of `source`, or the first lexical error in it.
///
/// `number_of` reads the text of a numeric literal: the bit pattern of the
/// number it denotes, or `None` where it denotes none. For every model that
/// describes `number_of`, the result is what [`lex`] defines for the whole
/// text.
pub fn tokenize<P: Fn(&str) -> Option<u64>>(source: &str, number_of: &P) -> (r: Result<
    Vec<Token>,
    LexError,
>)
    requires
        reads_any(number_of),
    ensures
        forall|m: NumberModel| m.reads(number_of) ==> lexed(r) == lex(m, source@, 0),
{
    let chars = chars_of(source);
    let mut tokens: Vec<Token> = Vec::new();
    let mut at: usize = 0;
    assert(Seq::<TokenView>::empty() =~= tokens_view(tokens@));
    while at < chars.len()
        invariant
            at <= chars.len(),
            chars@ == source@,
            reads_any(number_of),
            forall|m: NumberModel|
                m.reads(number_of) ==> lex(m, chars@, 0) == with_tokens(
                    tokens_view(tokens@),
                    lex(m, chars@, at as int),
                ),
        decreases chars.len() - at,
    {
        let c = chars[at];
        let ghost before = tokens@;
        if is_space_char(c) {
            at += 1;
        } else if let Some(token) = punctuation_token(c) {
            proof {
                assert(tokens_view(before.push(token)) =~= tokens_view(before).push(token@));
                assert forall|m: NumberModel| m.reads(number_of) implies lex(m, chars@, 0)
                    == with_tokens(tokens_view(before.push(token)), lex(m, chars@, at + 1)) by {
                    lemma_with_tokens_push(tokens_view(before), token@, lex(m, chars@, at + 1));
                }
            }
            tokens.push(token);
            at += 1;
        } else if is_digit_char(c) {
            let (text, end) = scan_number(&chars, at);
            proof {
                lemma_number_end_bounds(chars@, at as int);
            }
            match number_of(text.as_str()) {
                Some(n) => {
                    let token = Token::Number(n);
                    proof {
                        assert(tokens_view(before.push(token)) =~= tokens_view(before).push(token@));
                        assert forall|m: NumberModel| m.reads(number_of) implies lex(m, chars@, 0)
                            == with_tokens(
                            tokens_view(before.push(token)),
                            lex(m, chars@, end as int),
                        ) by {
                            lemma_with_tokens_push(
                                tokens_view(before),
                                token@,
                                lex(m, chars@, end as int),
                            );
                        }
                    }
                    tokens.push(token);
                    at = end;
                },
                None => {
                    return Err(LexError::InvalidNumber(text));
                },
            }
        } else if is_letter_char(c) || c == '_' {
            let (token, end) = scan_word(&chars, at);
            proof {
                lemma_word_end_bounds(chars@, at as int);
                assert(tokens_view(before.push(token)) =~= tokens_view(before).push(token@));
                assert forall|m: NumberModel| m.reads(number_of) implies lex(m, chars@, 0)
                    == with_tokens(tokens_view(before.push(token)), lex(m, chars@, end as int)) by {
                    lemma_with_tokens_push(tokens_view(before), token@, lex(m, chars@, end as int));
                }
            }
            tokens.push(token);
            at = end;
        } else if c == '\'' || c == '"' {
            match scan_string(&chars, at + 1, c) {
                Ok((text, end)) => {
                    let token = Token::String(text);
                    proof {
                        assert(tokens_view(before.push(token)) =~= tokens_view(before).push(token@));
                        assert forall|m: NumberModel| m.reads(number_of) implies lex(m, chars@, 0)
                            == with_tokens(
                            tokens_view(before.push(token)),
                            lex(m, chars@, end as int),
                        ) by {
                            lemma_with_tokens_push(
                                tokens_view(before),
                                token@,
                                lex(m, chars@, end as int),
                            );
                        }
                    }
                    tokens.push(token);
                    at = end;
                },
                Err(e) => {
                    return Err(e);
                },
            }
        } else {
            return Err(LexError::InvalidChar(c));
        }
    }
    proof {
        assert forall|m: NumberModel| m.reads(number_of) implies lexed(Ok::<_, LexError>(tokens))
            == lex(m, source@, 0) by {
            assert(tokens_view(tokens@) + Seq::<TokenView>::empty() =~= tokens_view(tokens@));
        }
    }
    Ok(tokens)
}

} // verus!
