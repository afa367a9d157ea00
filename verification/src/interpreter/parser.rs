//! Syntax trees of the expression language and the parser that builds them.
//!
//! The grammar, with one token of lookahead and no backtracking:
//!
//! ```text
//! expr       := IDENT | INT | NIL | call
//! call       := '(' IDENT expr* ')'
//! definition := IDENT 'is' ( 'fn' '(' IDENT* ')' expr | expr )
//! ```
//!
//! `fn` is an ordinary identifier; it introduces a function definition only
//! where it follows `is` and is itself followed by `(`.

use crate::interpreter::lexer::{tokens, item_view, LexError, LexItem, Lexer, Token, TokenModel};
use vstd::prelude::*;
use vstd::std_specs::cmp::PartialEqSpecImpl;
use vstd::string::StringExecFns;

verus! {

/// A name, as written in the source. Two names are equal if and only if
/// their texts are.
#[derive(Debug, Eq, Hash)]
pub struct Ident(pub String);

impl View for Ident {
    type V = Seq<char>;

    open spec fn view(&self) -> Seq<char> {
        self.0@
    }
}

impl PartialEq for Ident {
    fn eq(&self, other: &Self) -> (equal: bool) {
        self.0 == other.0
    }
}

impl PartialEqSpecImpl for Ident {
    open spec fn obeys_eq_spec() -> bool {
        true
    }

    open spec fn eq_spec(&self, other: &Self) -> bool {
        self@ == other@
    }
}

impl Clone for Ident {
    fn clone(&self) -> (copy: Self)
        ensures
            copy@ == self@,
    {
        Ident(self.0.clone())
    }
}

/// An expression.
#[derive(Debug, PartialEq)]
pub enum Expr {
    /// The `nil` literal.
    Nil,
    /// An integer literal.
    Int(i64),
    /// A reference to a variable.
    Ident(Ident),
    /// An operator or a function applied to arguments.
    Call(Ident, Vec<Expr>),
}

/// The mathematical value of an [`Expr`].
pub enum ExprModel {
    Nil,
    Int(i64),
    Ident(Seq<char>),
    Call(Seq<char>, Seq<ExprModel>),
}

impl View for Expr {
    type V = ExprModel;

    open spec fn view(&self) -> ExprModel {
        expr_model(*self)
    }
}

impl Clone for Expr {
    fn clone(&self) -> (copy: Self)
        ensures
            copy@ == self@,
        decreases self,
    {
        match self {
            Expr::Nil => Expr::Nil,
            Expr::Int(i) => Expr::Int(*i),
            Expr::Ident(name) => Expr::Ident(name.clone()),
            Expr::Call(head, args) => {
                let mut copies: Vec<Expr> = Vec::new();
                let mut i: usize = 0;
                while i < args.len()
                    invariant
                        self is Call,
                        self->Call_1 == *args,
                        i <= args.len(),
                        copies.len() == i,
                        forall|k: int| 0 <= k < i ==> (#[trigger] copies[k])@ == args[k]@,
                    decreases args.len() - i,
                {
                    copies.push(args[i].clone());
                    i = i + 1;
                }
                let copy = Expr::Call(head.clone(), copies);
                proof {
                    lemma_call_view(copy);
                    lemma_call_view(*self);
                    assert(exprs_view(copies@) =~= exprs_view(args@));
                }
                copy
            },
        }
    }
}

/// The mathematical value of the expression `e`.
pub open spec fn expr_model(e: Expr) -> ExprModel
    decreases e, 0nat,
{
    match e {
        Expr::Nil => ExprModel::Nil,
        Expr::Int(i) => ExprModel::Int(i),
        Expr::Ident(name) => ExprModel::Ident(name@),
        Expr::Call(head, args) => ExprModel::Call(head@, args_model(args, args.len() as nat)),
    }
}

/// The mathematical values of the first `n` expressions in `args`, in order.
pub open spec fn args_model(args: Vec<Expr>, n: nat) -> Seq<ExprModel>
    decreases args, n,
{
    if n == 0 || n > args.len() {
        Seq::empty()
    } else {
        args_model(args, (n - 1) as nat).push(expr_model(args[n - 1]))
    }
}

/// The mathematical values of the expressions in `exprs`, in order.
pub open spec fn exprs_view(exprs: Seq<Expr>) -> Seq<ExprModel> {
    Seq::new(exprs.len(), |k: int| exprs[k]@)
}

/// The value of a list of arguments holds the value of each argument at its place.
pub proof fn lemma_args_model(args: Vec<Expr>, n: nat)
    requires
        n <= args.len(),
    ensures
        args_model(args, n) == exprs_view(args@.take(n as int)),
    decreases n,
{
    if n > 0 {
        lemma_args_model(args, (n - 1) as nat);
        assert(args_model(args, n) =~= exprs_view(args@.take(n as int)));
    } else {
        assert(args_model(args, n) =~= exprs_view(args@.take(n as int)));
    }
}

/// The value of a call is made of the values of its head and of its arguments.
pub proof fn lemma_call_view(e: Expr)
    requires
        e is Call,
    ensures
        e@ == ExprModel::Call(e->Call_0@, exprs_view(e->Call_1@)),
{
    let args = e->Call_1;
    lemma_args_model(args, args.len() as nat);
    assert(args@.take(args.len() as int) =~= args@);
}

/// The names in `names`, in order.
pub open spec fn idents_view(names: Seq<Ident>) -> Seq<Seq<char>> {
    Seq::new(names.len(), |k: int| names[k]@)
}

/// A definition: a name bound to an expression, or to a function with its
/// parameters and body.
#[derive(Debug, PartialEq)]
pub enum Definition {
    Value(Ident, Expr),
    Func(Ident, Vec<Ident>, Expr),
}

impl Clone for Definition {
    fn clone(&self) -> (copy: Self)
        ensures
            copy@ == self@,
    {
        match self {
            Definition::Value(name, expr) => Definition::Value(name.clone(), expr.clone()),
            Definition::Func(name, params, body) => Definition::Func(
                name.clone(),
                clone_idents(params),
                body.clone(),
            ),
        }
    }
}

/// A copy of the names in `names`.
pub fn clone_idents(names: &Vec<Ident>) -> (copy: Vec<Ident>)
    ensures
        idents_view(copy@) == idents_view(names@),
{
    let mut copy: Vec<Ident> = Vec::new();
    let mut i: usize = 0;
    while i < names.len()
        invariant
            i <= names.len(),
            copy.len() == i,
            forall|k: int| 0 <= k < i ==> (#[trigger] copy[k])@ == names[k]@,
        decreases names.len() - i,
    {
        copy.push(names[i].clone());
        i = i + 1;
    }
    assert(idents_view(copy@) =~= idents_view(names@));
    copy
}

/// The mathematical value of a [`Definition`].
pub enum DefinitionModel {
    Value(Seq<char>, ExprModel),
    Func(Seq<char>, Seq<Seq<char>>, ExprModel),
}

impl DefinitionModel {
    /// The name that the definition binds.
    pub open spec fn name(self) -> Seq<char> {
        match self {
            DefinitionModel::Value(name, _) => name,
            DefinitionModel::Func(name, _, _) => name,
        }
    }
}

impl View for Definition {
    type V = DefinitionModel;

    open spec fn view(&self) -> DefinitionModel {
        match self {
            Definition::Value(name, expr) => DefinitionModel::Value(name@, expr@),
            Definition::Func(name, params, body) => DefinitionModel::Func(
                name@,
                idents_view(params@),
                body@,
            ),
        }
    }
}

/// Why a snippet does not parse.
#[derive(Debug, PartialEq)]
pub enum ParseError {
    /// The lexer failed on the input.
    Lex(LexError),
    /// The input ended where a token was needed.
    UnexpectedEof,
    /// A token stands where the grammar does not allow it.
    UnexpectedToken(Token),
}

/// The mathematical value of a [`ParseError`].
pub enum ParseErrorModel {
    Lex(LexError),
    UnexpectedEof,
    UnexpectedToken(TokenModel),
}

impl ParseErrorModel {
    /// What the error says.
    pub open spec fn message(self) -> Seq<char> {
        match self {
            ParseErrorModel::Lex(e) => e.message(),
            ParseErrorModel::UnexpectedEof => "unexpected EOF"@,
            ParseErrorModel::UnexpectedToken(token) => "unexpected token "@ + token.text(),
        }
    }
}

impl Clone for ParseError {
    fn clone(&self) -> (copy: Self)
        ensures
            copy@ == self@,
    {
        match self {
            ParseError::Lex(e) => ParseError::Lex(*e),
            ParseError::UnexpectedEof => ParseError::UnexpectedEof,
            ParseError::UnexpectedToken(token) => ParseError::UnexpectedToken(token.clone()),
        }
    }
}

impl ParseError {
    /// What the error says.
    pub fn to_string(&self) -> (text: String)
        ensures
            text@ == self@.message(),
    {
        match self {
            ParseError::Lex(e) => e.to_string(),
            ParseError::UnexpectedEof => String::from_str("unexpected EOF"),
            ParseError::UnexpectedToken(token) => {
                let text = String::from_str("unexpected token ");
                text.concat(token.to_string().as_str())
            },
        }
    }
}

impl View for ParseError {
    type V = ParseErrorModel;

    open spec fn view(&self) -> ParseErrorModel {
        match self {
            ParseError::Lex(e) => ParseErrorModel::Lex(*e),
            ParseError::UnexpectedEof => ParseErrorModel::UnexpectedEof,
            ParseError::UnexpectedToken(token) => ParseErrorModel::UnexpectedToken(token@),
        }
    }
}

/// The outcome of a parsing step: what was parsed or why not, and the items
/// that are left.
pub type Parsed<T> = (Result<T, ParseErrorModel>, Seq<LexItem>);

/// The mathematical value of a parsed expression or its error.
pub open spec fn expr_result_view(r: Result<Expr, ParseError>) -> Result<
    ExprModel,
    ParseErrorModel,
> {
    match r {
        Ok(e) => Ok(e@),
        Err(e) => Err(e@),
    }
}

/// The mathematical value of a parsed definition or its error.
pub open spec fn definition_result_view(r: Result<Definition, ParseError>) -> Result<
    DefinitionModel,
    ParseErrorModel,
> {
    match r {
        Ok(d) => Ok(d@),
        Err(e) => Err(e@),
    }
}

/// Takes the next token, which must exist. The item is consumed in any case.
pub open spec fn expect_token(ts: Seq<LexItem>) -> Parsed<TokenModel> {
    if ts.len() == 0 {
        (Err(ParseErrorModel::UnexpectedEof), ts)
    } else {
        match ts[0] {
            Ok(token) => (Ok(token), ts.skip(1)),
            Err(e) => (Err(ParseErrorModel::Lex(e)), ts.skip(1)),
        }
    }
}

/// Requires that nothing is left.
pub open spec fn expect_end(ts: Seq<LexItem>) -> Parsed<()> {
    if ts.len() == 0 {
        (Ok(()), ts)
    } else {
        match ts[0] {
            Ok(token) => (Err(ParseErrorModel::UnexpectedToken(token)), ts.skip(1)),
            Err(e) => (Err(ParseErrorModel::Lex(e)), ts.skip(1)),
        }
    }
}

/// Takes the next token, which must be an identifier.
pub open spec fn parse_ident(ts: Seq<LexItem>) -> Parsed<Seq<char>> {
    match expect_token(ts).0 {
        Ok(TokenModel::Identifier(name)) => (Ok(name), expect_token(ts).1),
        Ok(token) => (Err(ParseErrorModel::UnexpectedToken(token)), expect_token(ts).1),
        Err(e) => (Err(e), expect_token(ts).1),
    }
}

/// Parses one expression at the front of `ts`. An item that cannot start an
/// expression is reported and left in place.
pub open spec fn parse_expr(ts: Seq<LexItem>) -> Parsed<ExprModel>
    decreases ts.len(), 0nat,
{
    if ts.len() == 0 {
        (Err(ParseErrorModel::UnexpectedEof), ts)
    } else {
        match ts[0] {
            Err(e) => (Err(ParseErrorModel::Lex(e)), ts),
            Ok(TokenModel::Identifier(name)) => (Ok(ExprModel::Ident(name)), ts.skip(1)),
            Ok(TokenModel::Int(i)) => (Ok(ExprModel::Int(i)), ts.skip(1)),
            Ok(TokenModel::Nil) => (Ok(ExprModel::Nil), ts.skip(1)),
            Ok(TokenModel::OpenParens) => {
                let (head, after_head) = parse_ident(ts.skip(1));
                match head {
                    Err(e) => (Err(e), after_head),
                    Ok(head) => {
                        let (args, rest) = parse_args(after_head);
                        match args {
                            Err(e) => (Err(e), rest),
                            Ok(args) => (Ok(ExprModel::Call(head, args)), rest),
                        }
                    },
                }
            },
            Ok(token) => (Err(ParseErrorModel::UnexpectedToken(token)), ts),
        }
    }
}

/// Parses the arguments of a call up to and including its closing parenthesis.
pub open spec fn parse_args(ts: Seq<LexItem>) -> Parsed<Seq<ExprModel>>
    decreases ts.len(), 1nat,
{
    if ts.len() == 0 {
        (Err(ParseErrorModel::UnexpectedEof), ts)
    } else {
        match ts[0] {
            Err(e) => (Err(ParseErrorModel::Lex(e)), ts),
            Ok(TokenModel::CloseParens) => (Ok(Seq::empty()), ts.skip(1)),
            _ => {
                let (first, after_first) = parse_expr(ts);
                match first {
                    Err(e) => (Err(e), after_first),
                    Ok(first) => {
                        // An expression always takes at least one token.
                        if after_first.len() < ts.len() {
                            let (others, rest) = parse_args(after_first);
                            match others {
                                Err(e) => (Err(e), rest),
                                Ok(others) => (Ok(seq![first] + others), rest),
                            }
                        } else {
                            (Err(ParseErrorModel::UnexpectedEof), after_first)
                        }
                    },
                }
            },
        }
    }
}

/// Parses the parameter names of a function definition up to and including
/// the closing parenthesis.
pub open spec fn parse_params(ts: Seq<LexItem>) -> Parsed<Seq<Seq<char>>>
    decreases ts.len(),
{
    if ts.len() == 0 {
        (Err(ParseErrorModel::UnexpectedEof), ts)
    } else {
        match ts[0] {
            Err(e) => (Err(ParseErrorModel::Lex(e)), ts.skip(1)),
            Ok(TokenModel::CloseParens) => (Ok(Seq::empty()), ts.skip(1)),
            Ok(TokenModel::Identifier(name)) => {
                let (others, rest) = parse_params(ts.skip(1));
                match others {
                    Err(e) => (Err(e), rest),
                    Ok(others) => (Ok(seq![name] + others), rest),
                }
            },
            Ok(token) => (Err(ParseErrorModel::UnexpectedToken(token)), ts.skip(1)),
        }
    }
}

/// Whether `ts` starts a function: the identifier `fn` and an opening parenthesis.
pub open spec fn starts_function(ts: Seq<LexItem>) -> bool {
    &&& ts.len() >= 2
    &&& ts[0] == Ok::<TokenModel, LexError>(TokenModel::Identifier("fn"@))
    &&& ts[1] == Ok::<TokenModel, LexError>(TokenModel::OpenParens)
}

/// Parses what follows `is` in the definition of `name`.
pub open spec fn parse_bound(name: Seq<char>, ts: Seq<LexItem>) -> Parsed<DefinitionModel> {
    if starts_function(ts) {
        let (params, after_params) = parse_params(ts.skip(2));
        match params {
            Err(e) => (Err(e), after_params),
            Ok(params) => {
                let (body, rest) = parse_expr(after_params);
                match body {
                    Err(e) => (Err(e), rest),
                    Ok(body) => (Ok(DefinitionModel::Func(name, params, body)), rest),
                }
            },
        }
    } else {
        let (expr, rest) = parse_expr(ts);
        match expr {
            Err(e) => (Err(e), rest),
            Ok(expr) => (Ok(DefinitionModel::Value(name, expr)), rest),
        }
    }
}

/// Parses one definition at the front of `ts`.
pub open spec fn parse_definition(ts: Seq<LexItem>) -> Parsed<DefinitionModel> {
    let (name, after_name) = parse_ident(ts);
    match name {
        Err(e) => (Err(e), after_name),
        Ok(name) => {
            let (is, after_is) = expect_token(after_name);
            match is {
                Err(e) => (Err(e), after_is),
                Ok(TokenModel::Is) => parse_bound(name, after_is),
                Ok(token) => (Err(ParseErrorModel::UnexpectedToken(token)), after_is),
            }
        },
    }
}

/// Parses `ts` as one expression and nothing else.
pub open spec fn parse_top_level_expr(ts: Seq<LexItem>) -> Parsed<ExprModel> {
    let (expr, rest) = parse_expr(ts);
    match expr {
        Err(e) => (Err(e), rest),
        Ok(expr) => match expect_end(rest).0 {
            Err(e) => (Err(e), expect_end(rest).1),
            Ok(_) => (Ok(expr), expect_end(rest).1),
        },
    }
}

/// Parses `ts` as one definition and nothing else.
pub open spec fn parse_top_level_definition(ts: Seq<LexItem>) -> Parsed<DefinitionModel> {
    let (def, rest) = parse_definition(ts);
    match def {
        Err(e) => (Err(e), rest),
        Ok(def) => match expect_end(rest).0 {
            Err(e) => (Err(e), expect_end(rest).1),
            Ok(_) => (Ok(def), expect_end(rest).1),
        },
    }
}

/// An expression that parses takes at least one item, and so do the arguments
/// of a call; what is left is shorter than what was there.
pub proof fn lemma_parse_consumes(ts: Seq<LexItem>)
    ensures
        parse_expr(ts).1.len() <= ts.len(),
        parse_expr(ts).0 is Ok ==> parse_expr(ts).1.len() < ts.len(),
        parse_args(ts).1.len() <= ts.len(),
        parse_args(ts).0 is Ok ==> parse_args(ts).1.len() < ts.len(),
    decreases ts.len(),
{
    if ts.len() > 0 {
        if ts[0] == Ok::<TokenModel, LexError>(TokenModel::OpenParens) {
            lemma_parse_consumes(parse_ident(ts.skip(1)).1);
        }
        if parse_expr(ts).0 is Ok && parse_expr(ts).1.len() < ts.len() {
            lemma_parse_consumes(parse_expr(ts).1);
        }
    }
}

/// The mathematical value of an expected token or its error.
pub open spec fn token_result_view(r: Result<Token, ParseError>) -> Result<
    TokenModel,
    ParseErrorModel,
> {
    match r {
        Ok(token) => Ok(token@),
        Err(e) => Err(e@),
    }
}

/// The mathematical value of an expected identifier or its error.
pub open spec fn ident_result_view(r: Result<Ident, ParseError>) -> Result<
    Seq<char>,
    ParseErrorModel,
> {
    match r {
        Ok(name) => Ok(name@),
        Err(e) => Err(e@),
    }
}

/// The outcome `p` of parsing the rest of a list, behind the elements `done`.
pub open spec fn after_elements<T>(done: Seq<T>, p: Parsed<Seq<T>>) -> Parsed<Seq<T>> {
    match p.0 {
        Ok(others) => (Ok(done + others), p.1),
        Err(e) => (Err(e), p.1),
    }
}

/// A parser over the items of a lexer, with one token of lookahead.
#[derive(Debug)]
pub struct Parser {
    lexer: Lexer,
    current: Option<Result<Token, LexError>>,
}

impl View for Parser {
    type V = Seq<LexItem>;

    /// The items that are still to be parsed.
    closed spec fn view(&self) -> Seq<LexItem> {
        match item_view(self.current) {
            None => Seq::empty(),
            Some(item) => seq![item] + tokens(self.lexer@),
        }
    }
}

impl Parser {
    /// A parser over all the items that `lexer` has yet to give.
    pub fn new(lexer: Lexer) -> (parser: Self)
        ensures
            parser@ == tokens(lexer@),
    {
        let mut lexer = lexer;
        let current = lexer.next();
        Parser { lexer, current }
    }

    /// The next item, if there is one, which stays where it is.
    fn peek(&self) -> (item: &Option<Result<Token, LexError>>)
        ensures
            self@.len() == 0 ==> *item is None,
            self@.len() > 0 ==> item_view(*item) == Some(self@[0]),
    {
        &self.current
    }

    /// Takes the next item, if there is one.
    fn next(&mut self) -> (item: Option<Result<Token, LexError>>)
        ensures
            old(self)@.len() == 0 ==> item is None && final(self)@ == old(self)@,
            old(self)@.len() > 0 ==> item_view(item) == Some(old(self)@[0]) && final(self)@ == old(
                self,
            )@.skip(1),
    {
        if self.current.is_none() {
            return None;
        }
        let mut item = self.lexer.next();
        core::mem::swap(&mut self.current, &mut item);
        assert(self@ =~= old(self)@.skip(1));
        item
    }

    /// Takes the next token, which must exist.
    fn expect(&mut self) -> (r: Result<Token, ParseError>)
        ensures
            token_result_view(r) == expect_token(old(self)@).0,
            final(self)@ == expect_token(old(self)@).1,
    {
        match self.next() {
            None => Err(ParseError::UnexpectedEof),
            Some(Err(e)) => Err(ParseError::Lex(e)),
            Some(Ok(token)) => Ok(token),
        }
    }

    /// Requires that nothing is left.
    fn expect_end(&mut self) -> (r: Result<(), ParseError>)
        ensures
            r is Ok == expect_end(old(self)@).0 is Ok,
            r is Err ==> Err::<(), ParseErrorModel>(r->Err_0@) == expect_end(old(self)@).0,
            final(self)@ == expect_end(old(self)@).1,
    {
        match self.next() {
            None => Ok(()),
            Some(Err(e)) => Err(ParseError::Lex(e)),
            Some(Ok(token)) => Err(ParseError::UnexpectedToken(token)),
        }
    }

    /// Takes the next token, which must be an identifier.
    fn ident(&mut self) -> (r: Result<Ident, ParseError>)
        ensures
            ident_result_view(r) == parse_ident(old(self)@).0,
            final(self)@ == parse_ident(old(self)@).1,
    {
        match self.expect() {
            Err(e) => Err(e),
            Ok(Token::Identifier(name)) => Ok(Ident(name)),
            Ok(token) => Err(ParseError::UnexpectedToken(token)),
        }
    }

    /// Parses a call, whose opening parenthesis is the next token.
    fn call(&mut self) -> (r: Result<Expr, ParseError>)
        requires
            old(self)@.len() > 0,
            old(self)@[0] == Ok::<TokenModel, LexError>(TokenModel::OpenParens),
        ensures
            expr_result_view(r) == parse_expr(old(self)@).0,
            final(self)@ == parse_expr(old(self)@).1,
        decreases old(self)@.len(), 0nat,
    {
        let _ = self.next();
        let head = match self.ident() {
            Err(e) => {
                return Err(e);
            },
            Ok(head) => head,
        };
        let ghost start = self@;
        let mut args: Vec<Expr> = Vec::new();
        let ghost mut models: Seq<ExprModel> = Seq::empty();
        loop
            invariant
                models.len() == args.len(),
                forall|k: int| 0 <= k < args.len() ==> models[k] == (#[trigger] args[k])@,
                self@.len() <= start.len(),
                start.len() < old(self)@.len(),
                parse_args(start) == after_elements(models, parse_args(self@)),
                parse_expr(old(self)@) == match parse_args(start).0 {
                    Err(e) => (Err::<ExprModel, ParseErrorModel>(e), parse_args(start).1),
                    Ok(all) => (Ok(ExprModel::Call(head@, all)), parse_args(start).1),
                },
            decreases self@.len(),
        {
            let ghost before = self@;
            proof {
                lemma_parse_consumes(before);
            }
            match self.peek() {
                None => {
                    return Err(ParseError::UnexpectedEof);
                },
                Some(Err(e)) => {
                    return Err(ParseError::Lex(*e));
                },
                Some(Ok(Token::CloseParens)) => {
                    let _ = self.next();
                    let call = Expr::Call(head, args);
                    proof {
                        assert(models + Seq::<ExprModel>::empty() =~= models);
                        lemma_call_view(call);
                        assert(exprs_view(call->Call_1@) =~= models);
                    }
                    return Ok(call);
                },
                Some(Ok(_)) => {
                    match self.expr() {
                        Err(e) => {
                            return Err(e);
                        },
                        Ok(arg) => {
                            proof {
                                let others = parse_args(self@);
                                if others.0 is Ok {
                                    assert(models + (seq![arg@] + others.0->Ok_0) =~= models.push(
                                        arg@,
                                    ) + others.0->Ok_0);
                                }
                                models = models.push(arg@);
                            }
                            args.push(arg);
                        },
                    }
                },
            }
        }
    }

    /// Parses one expression.
    fn expr(&mut self) -> (r: Result<Expr, ParseError>)
        ensures
            expr_result_view(r) == parse_expr(old(self)@).0,
            final(self)@ == parse_expr(old(self)@).1,
        decreases old(self)@.len(), 1nat,
    {
        match self.peek() {
            None => Err(ParseError::UnexpectedEof),
            Some(Err(e)) => Err(ParseError::Lex(*e)),
            Some(Ok(Token::OpenParens)) => self.call(),
            Some(Ok(Token::Is)) => Err(ParseError::UnexpectedToken(Token::Is)),
            Some(Ok(Token::CloseParens)) => Err(ParseError::UnexpectedToken(Token::CloseParens)),
            Some(Ok(_)) => match self.next() {
                Some(Ok(Token::Identifier(name))) => Ok(Expr::Ident(Ident(name))),
                Some(Ok(Token::Int(i))) => Ok(Expr::Int(i)),
                Some(Ok(Token::Nil)) => Ok(Expr::Nil),
                _ => unreached(),
            },
        }
    }

    /// Parses the parameter names of a function, whose opening parenthesis has
    /// been read.
    fn params(&mut self) -> (r: Result<Vec<Ident>, ParseError>)
        ensures
            match r {
                Ok(names) => Ok::<Seq<Seq<char>>, ParseErrorModel>(idents_view(names@)),
                Err(e) => Err(e@),
            } == parse_params(old(self)@).0,
            final(self)@ == parse_params(old(self)@).1,
    {
        let mut names: Vec<Ident> = Vec::new();
        loop
            invariant
                parse_params(old(self)@) == after_elements(
                    idents_view(names@),
                    parse_params(self@),
                ),
            decreases self@.len(),
        {
            let ghost done = idents_view(names@);
            match self.expect() {
                Err(e) => {
                    return Err(e);
                },
                Ok(Token::CloseParens) => {
                    assert(done + Seq::<Seq<char>>::empty() =~= done);
                    return Ok(names);
                },
                Ok(Token::Identifier(name)) => {
                    let param = Ident(name);
                    proof {
                        let others = parse_params(self@);
                        if others.0 is Ok {
                            assert(done + (seq![param@] + others.0->Ok_0) =~= done.push(param@)
                                + others.0->Ok_0);
                        }
                    }
                    names.push(param);
                    assert(idents_view(names@) =~= done.push(param@));
                },
                Ok(token) => {
                    return Err(ParseError::UnexpectedToken(token));
                },
            }
        }
    }

    /// Parses what follows `is` in the definition of `name`.
    fn bound(&mut self, name: Ident) -> (r: Result<Definition, ParseError>)
        ensures
            definition_result_view(r) == parse_bound(name@, old(self)@).0,
            final(self)@ == parse_bound(name@, old(self)@).1,
    {
        let named_fn = match self.peek() {
            Some(Ok(Token::Identifier(word))) => word.as_str().eq("fn"),
            _ => false,
        };
        if !named_fn {
            return match self.expr() {
                Err(e) => Err(e),
                Ok(expr) => Ok(Definition::Value(name, expr)),
            };
        }
        let word = match self.next() {
            Some(Ok(Token::Identifier(word))) => word,
            _ => unreached(),
        };
        match self.peek() {
            Some(Ok(Token::OpenParens)) => {
                let _ = self.next();
                assert(self@ =~= old(self)@.skip(2));
                let params = match self.params() {
                    Err(e) => {
                        return Err(e);
                    },
                    Ok(params) => params,
                };
                match self.expr() {
                    Err(e) => Err(e),
                    Ok(body) => Ok(Definition::Func(name, params, body)),
                }
            },
            _ => Ok(Definition::Value(name, Expr::Ident(Ident(word)))),
        }
    }

    /// Parses one definition.
    fn definition(&mut self) -> (r: Result<Definition, ParseError>)
        ensures
            definition_result_view(r) == parse_definition(old(self)@).0,
            final(self)@ == parse_definition(old(self)@).1,
    {
        let name = match self.ident() {
            Err(e) => {
                return Err(e);
            },
            Ok(name) => name,
        };
        match self.expect() {
            Err(e) => Err(e),
            Ok(Token::Is) => self.bound(name),
            Ok(token) => Err(ParseError::UnexpectedToken(token)),
        }
    }

    /// Parses the whole input as one expression. A trailing token is an error.
    pub fn top_level_expr(&mut self) -> (r: Result<Expr, ParseError>)
        ensures
            expr_result_view(r) == parse_top_level_expr(old(self)@).0,
            final(self)@ == parse_top_level_expr(old(self)@).1,
    {
        let expr = match self.expr() {
            Err(e) => {
                return Err(e);
            },
            Ok(expr) => expr,
        };
        match self.expect_end() {
            Err(e) => Err(e),
            Ok(_) => Ok(expr),
        }
    }

    /// Parses the whole input as one definition. A trailing token is an error.
    pub fn top_level_definition(&mut self) -> (r: Result<Definition, ParseError>)
        ensures
            definition_result_view(r) == parse_top_level_definition(old(self)@).0,
            final(self)@ == parse_top_level_definition(old(self)@).1,
    {
        let def = match self.definition() {
            Err(e) => {
                return Err(e);
            },
            Ok(def) => def,
        };
        match self.expect_end() {
            Err(e) => Err(e),
            Ok(_) => Ok(def),
        }
    }
}

} // verus!
