use wahlbergdown::interpreter::lexer::{LexError, Lexer, Token};
use wahlbergdown::text::{collect_chars, push_decimal_text};

fn lex_all(src: &str) -> Vec<Result<Token, LexError>> {
    let mut lexer = Lexer::new(src);
    let mut items = Vec::new();
    while let Some(item) = lexer.next() {
        items.push(item);
    }
    items
}

fn ident(name: &str) -> Result<Token, LexError> {
    Ok(Token::Identifier(name.to_string()))
}

#[test]
fn lexes_integers_and_identifiers() {
    assert_eq!(
        lex_all("42 foo is_bar"),
        vec![Ok(Token::Int(42)), ident("foo"), ident("is_bar")]
    );
}

#[test]
fn keyword_is_a_whole_word() {
    assert_eq!(
        lex_all("x is 1"),
        vec![ident("x"), Ok(Token::Is), Ok(Token::Int(1))]
    );
    assert_eq!(lex_all("is_"), vec![ident("is_")]);
    assert_eq!(lex_all("isis"), vec![ident("isis")]);
    assert_eq!(lex_all("nil nilly"), vec![Ok(Token::Nil), ident("nilly")]);
}

#[test]
fn lexes_call_syntax() {
    assert_eq!(
        lex_all("(+ 1 (* 2 3))"),
        vec![
            Ok(Token::OpenParens),
            ident("+"),
            Ok(Token::Int(1)),
            Ok(Token::OpenParens),
            ident("*"),
            Ok(Token::Int(2)),
            Ok(Token::Int(3)),
            Ok(Token::CloseParens),
            Ok(Token::CloseParens),
        ]
    );
}

#[test]
fn operators_are_single_character_identifiers() {
    assert_eq!(
        lex_all("+-*/"),
        vec![ident("+"), ident("-"), ident("*"), ident("/")]
    );
    assert_eq!(lex_all("-7"), vec![ident("-"), Ok(Token::Int(7))]);
}

#[test]
fn whitespace_is_skipped() {
    assert_eq!(lex_all(""), vec![]);
    assert_eq!(lex_all(" \t\n "), vec![]);
    assert_eq!(lex_all("\n 7\t"), vec![Ok(Token::Int(7))]);
}

#[test]
fn digits_end_an_integer_and_continue_a_word() {
    assert_eq!(lex_all("12ab"), vec![Ok(Token::Int(12)), ident("ab")]);
    assert_eq!(lex_all("ab12"), vec![ident("ab12")]);
    assert_eq!(lex_all("_1"), vec![ident("_1")]);
    assert_eq!(lex_all("007"), vec![Ok(Token::Int(7))]);
}

#[test]
fn unexpected_character_is_an_error_and_lexing_goes_on() {
    assert_eq!(
        lex_all("1 $ 2"),
        vec![
            Ok(Token::Int(1)),
            Err(LexError::UnexpectedChar('$')),
            Ok(Token::Int(2)),
        ]
    );
}

#[test]
fn largest_integer_fits() {
    assert_eq!(
        lex_all("9223372036854775807"),
        vec![Ok(Token::Int(i64::MAX))]
    );
}

#[test]
fn too_large_integer_is_one_error() {
    assert_eq!(
        lex_all("9223372036854775808 1"),
        vec![Err(LexError::IntegerOverflow), Ok(Token::Int(1))]
    );
    assert_eq!(
        lex_all("99999999999999999999999999"),
        vec![Err(LexError::IntegerOverflow)]
    );
}

#[test]
fn exhausted_lexer_stays_exhausted() {
    let mut lexer = Lexer::new("a");
    assert_eq!(lexer.next(), Some(ident("a")));
    assert_eq!(lexer.next(), None);
    assert_eq!(lexer.next(), None);
}

#[test]
fn unicode_letters_are_word_characters() {
    assert_eq!(lex_all("été"), vec![ident("été")]);
}

#[test]
fn tokens_have_their_source_text() {
    assert_eq!(Token::Is.to_string(), "is");
    assert_eq!(Token::Nil.to_string(), "nil");
    assert_eq!(Token::OpenParens.to_string(), "(");
    assert_eq!(Token::CloseParens.to_string(), ")");
    assert_eq!(Token::Int(42).to_string(), "42");
    assert_eq!(Token::Int(0).to_string(), "0");
    assert_eq!(Token::Int(-15).to_string(), "-15");
    assert_eq!(Token::Identifier("foo".to_string()).to_string(), "foo");
}

#[test]
fn token_text_lexes_back() {
    for token in [
        Token::Is,
        Token::Nil,
        Token::OpenParens,
        Token::CloseParens,
        Token::Int(0),
        Token::Int(10),
        Token::Int(i64::MAX),
        Token::Identifier("a_1".to_string()),
        Token::Identifier("*".to_string()),
    ] {
        assert_eq!(lex_all(&token.to_string()), vec![Ok(token.clone())]);
    }
}

#[test]
fn tokens_can_be_copied() {
    let token = Token::Identifier("name".to_string());
    assert_eq!(token.clone(), token);
    assert_eq!(Token::Int(3).clone(), Token::Int(3));
}

#[test]
fn lex_errors_have_messages() {
    assert_eq!(
        LexError::UnexpectedChar('$').to_string(),
        "unexpected character $"
    );
    assert_eq!(
        LexError::IntegerOverflow.to_string(),
        "integer literal out of range"
    );
}

#[test]
fn decimal_text_of_integers() {
    let mut text = String::from("n=");
    push_decimal_text(&mut text, 1234567890);
    assert_eq!(text, "n=1234567890");
    let mut least = String::new();
    push_decimal_text(&mut least, i64::MIN);
    assert_eq!(least, "-9223372036854775808");
    let mut most = String::new();
    push_decimal_text(&mut most, i64::MAX);
    assert_eq!(most, "9223372036854775807");
    let mut nine = String::new();
    push_decimal_text(&mut nine, 9);
    assert_eq!(nine, "9");
    let mut ten = String::new();
    push_decimal_text(&mut ten, -10);
    assert_eq!(ten, "-10");
}

#[test]
fn characters_are_collected_in_order() {
    assert_eq!(collect_chars("aé("), vec!['a', 'é', '(']);
    assert_eq!(collect_chars(""), Vec::<char>::new());
}

#[test]
fn white_space_is_the_unicode_property() {
    let listed = |c: char| {
        let u = c as u32;
        (0x09..=0x0d).contains(&u)
            || u == 0x20
            || u == 0x85
            || u == 0xa0
            || u == 0x1680
            || (0x2000..=0x200a).contains(&u)
            || u == 0x2028
            || u == 0x2029
            || u == 0x202f
            || u == 0x205f
            || u == 0x3000
    };
    let mut count = 0;
    for u in 0..=0x10ffffu32 {
        if let Some(c) = char::from_u32(u) {
            assert_eq!(c.is_whitespace(), listed(c), "U+{:04X}", u);
            if listed(c) {
                count += 1;
            }
        }
    }
    assert_eq!(count, 25);
}

#[test]
fn ascii_classes_are_letters_and_digits() {
    for u in 0..=0x7fu32 {
        let c = char::from_u32(u).unwrap();
        let letter = ('a'..='z').contains(&c) || ('A'..='Z').contains(&c);
        let digit = ('0'..='9').contains(&c);
        assert_eq!(c.is_alphabetic(), letter);
        assert_eq!(c.is_alphanumeric(), letter || digit);
        assert_eq!(c.to_digit(10).is_some(), digit);
    }
}

#[test]
fn alphanumeric_is_alphabetic_or_numeric() {
    for u in 0..=0x10ffffu32 {
        if let Some(c) = char::from_u32(u) {
            assert_eq!(c.is_alphanumeric(), c.is_alphabetic() || c.is_numeric());
        }
    }
}

#[test]
fn non_ascii_whitespace_separates_tokens() {
    assert_eq!(
        lex_all("a\u{a0}b\u{3000}1"),
        vec![ident("a"), ident("b"), Ok(Token::Int(1))]
    );
}

#[test]
fn non_ascii_digits_continue_a_word_and_start_none() {
    assert_eq!(lex_all("a\u{663}"), vec![ident("a\u{663}")]);
    assert_eq!(
        lex_all("\u{663}"),
        vec![Err(LexError::UnexpectedChar('\u{663}'))]
    );
}
