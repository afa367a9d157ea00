use wahlbergdown::interpreter::lexer::{LexError, Lexer, Token};
use wahlbergdown::interpreter::parser::{Definition, Expr, Ident, ParseError, Parser};

fn parse_expr(src: &str) -> Result<Expr, ParseError> {
    Parser::new(Lexer::new(src)).top_level_expr()
}

fn parse_definition(src: &str) -> Result<Definition, ParseError> {
    Parser::new(Lexer::new(src)).top_level_definition()
}

fn name(text: &str) -> Ident {
    Ident(text.to_string())
}

fn var(text: &str) -> Expr {
    Expr::Ident(name(text))
}

#[test]
fn parses_atoms() {
    assert_eq!(parse_expr("7"), Ok(Expr::Int(7)));
    assert_eq!(parse_expr("nil"), Ok(Expr::Nil));
    assert_eq!(parse_expr("x"), Ok(var("x")));
}

#[test]
fn parses_calls() {
    assert_eq!(
        parse_expr("(+ 1 2 3)"),
        Ok(Expr::Call(
            name("+"),
            vec![Expr::Int(1), Expr::Int(2), Expr::Int(3)]
        ))
    );
    assert_eq!(parse_expr("(f)"), Ok(Expr::Call(name("f"), vec![])));
    assert_eq!(
        parse_expr("(if x (g 1) nil)"),
        Ok(Expr::Call(
            name("if"),
            vec![
                var("x"),
                Expr::Call(name("g"), vec![Expr::Int(1)]),
                Expr::Nil
            ]
        ))
    );
}

#[test]
fn trailing_token_is_an_error() {
    assert_eq!(
        parse_expr("1 2"),
        Err(ParseError::UnexpectedToken(Token::Int(2)))
    );
    assert_eq!(
        parse_expr("(f) )"),
        Err(ParseError::UnexpectedToken(Token::CloseParens))
    );
}

#[test]
fn end_of_input_is_an_error() {
    assert_eq!(parse_expr(""), Err(ParseError::UnexpectedEof));
    assert_eq!(parse_expr("("), Err(ParseError::UnexpectedEof));
    assert_eq!(parse_expr("(f 1"), Err(ParseError::UnexpectedEof));
    assert_eq!(parse_expr("(f (g)"), Err(ParseError::UnexpectedEof));
}

#[test]
fn misplaced_token_is_an_error() {
    assert_eq!(
        parse_expr(")"),
        Err(ParseError::UnexpectedToken(Token::CloseParens))
    );
    assert_eq!(
        parse_expr("is"),
        Err(ParseError::UnexpectedToken(Token::Is))
    );
    assert_eq!(
        parse_expr("(1 2)"),
        Err(ParseError::UnexpectedToken(Token::Int(1)))
    );
    assert_eq!(
        parse_expr("(f is)"),
        Err(ParseError::UnexpectedToken(Token::Is))
    );
}

#[test]
fn lex_error_becomes_parse_error() {
    assert_eq!(
        parse_expr("(f $)"),
        Err(ParseError::Lex(LexError::UnexpectedChar('$')))
    );
    assert_eq!(
        parse_expr("1 ?"),
        Err(ParseError::Lex(LexError::UnexpectedChar('?')))
    );
    assert_eq!(
        parse_expr("99999999999999999999"),
        Err(ParseError::Lex(LexError::IntegerOverflow))
    );
}

#[test]
fn first_error_wins() {
    assert_eq!(
        parse_expr("1 2 $"),
        Err(ParseError::UnexpectedToken(Token::Int(2)))
    );
}

#[test]
fn parses_value_definition() {
    assert_eq!(
        parse_definition("x is (+ 1 1)"),
        Ok(Definition::Value(
            name("x"),
            Expr::Call(name("+"), vec![Expr::Int(1), Expr::Int(1)])
        ))
    );
    assert_eq!(
        parse_definition("x is y"),
        Ok(Definition::Value(name("x"), var("y")))
    );
}

#[test]
fn parses_function_definition() {
    assert_eq!(
        parse_definition("double is fn(n) (+ n n)"),
        Ok(Definition::Func(
            name("double"),
            vec![name("n")],
            Expr::Call(name("+"), vec![var("n"), var("n")])
        ))
    );
    assert_eq!(
        parse_definition("seven is fn() 7"),
        Ok(Definition::Func(name("seven"), vec![], Expr::Int(7)))
    );
    assert_eq!(
        parse_definition("pick is fn(a b c) b"),
        Ok(Definition::Func(
            name("pick"),
            vec![name("a"), name("b"), name("c")],
            var("b")
        ))
    );
}

#[test]
fn fn_alone_is_a_variable() {
    assert_eq!(
        parse_definition("x is fn"),
        Ok(Definition::Value(name("x"), var("fn")))
    );
    assert_eq!(
        parse_definition("x is (fn 1)"),
        Ok(Definition::Value(
            name("x"),
            Expr::Call(name("fn"), vec![Expr::Int(1)])
        ))
    );
}

#[test]
fn malformed_definitions_are_errors() {
    assert_eq!(parse_definition(""), Err(ParseError::UnexpectedEof));
    assert_eq!(parse_definition("x"), Err(ParseError::UnexpectedEof));
    assert_eq!(parse_definition("x is"), Err(ParseError::UnexpectedEof));
    assert_eq!(
        parse_definition("1 is 2"),
        Err(ParseError::UnexpectedToken(Token::Int(1)))
    );
    assert_eq!(
        parse_definition("x 1"),
        Err(ParseError::UnexpectedToken(Token::Int(1)))
    );
    assert_eq!(
        parse_definition("x is 1 2"),
        Err(ParseError::UnexpectedToken(Token::Int(2)))
    );
    assert_eq!(
        parse_definition("f is fn(1) 2"),
        Err(ParseError::UnexpectedToken(Token::Int(1)))
    );
    assert_eq!(
        parse_definition("f is fn(a"),
        Err(ParseError::UnexpectedEof)
    );
    assert_eq!(
        parse_definition("f is fn(a)"),
        Err(ParseError::UnexpectedEof)
    );
    assert_eq!(
        parse_definition("f is fn(a $) 1"),
        Err(ParseError::Lex(LexError::UnexpectedChar('$')))
    );
}

#[test]
fn names_are_equal_by_their_text() {
    assert_eq!(name("a"), name("a"));
    assert_ne!(name("a"), name("b"));
    assert_ne!(name("a"), name("A"));
    assert_eq!(name("a").clone(), name("a"));
}

#[test]
fn syntax_trees_can_be_copied() {
    let tree = Expr::Call(
        name("f"),
        vec![
            Expr::Int(1),
            Expr::Nil,
            var("x"),
            Expr::Call(name("g"), vec![Expr::Call(name("h"), vec![])]),
        ],
    );
    assert_eq!(tree.clone(), tree);
    let value = Definition::Value(name("v"), tree.clone());
    assert_eq!(value.clone(), value);
    let function = Definition::Func(name("f"), vec![name("a"), name("b")], tree);
    assert_eq!(function.clone(), function);
}

#[test]
fn parse_errors_have_messages() {
    assert_eq!(ParseError::UnexpectedEof.to_string(), "unexpected EOF");
    assert_eq!(
        ParseError::UnexpectedToken(Token::Int(2)).to_string(),
        "unexpected token 2"
    );
    assert_eq!(
        ParseError::UnexpectedToken(Token::CloseParens).to_string(),
        "unexpected token )"
    );
    assert_eq!(
        ParseError::UnexpectedToken(Token::Identifier("x".to_string())).to_string(),
        "unexpected token x"
    );
    assert_eq!(
        ParseError::Lex(LexError::UnexpectedChar('%')).to_string(),
        "unexpected character %"
    );
    assert_eq!(
        ParseError::UnexpectedToken(Token::Is).clone(),
        ParseError::UnexpectedToken(Token::Is)
    );
}
