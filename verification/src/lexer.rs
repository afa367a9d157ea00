//! The tokenizer that splits a document into raw text and the marks that
//! delimit code: `<!--`, `-->`, a backtick and the end of a line.

use peekmore::{PeekMore, PeekMoreIterator};
use std::str::Chars;
use vstd::prelude::*;

verus! {

/// A token of a document.
#[derive(Debug, PartialEq)]
pub enum Token {
    /// `<!--`
    CommentOpen,
    /// `-->`
    CommentClose,
    /// A backtick.
    Tick,
    /// The end of a line.
    Newline,
    /// Everything else is raw text.
    Raw(String),
}

/// The mathematical value of a [`Token`].
pub enum TokenModel {
    CommentOpen,
    CommentClose,
    Tick,
    Newline,
    Raw(Seq<char>),
}

impl View for Token {
    type V = TokenModel;

    open spec fn view(&self) -> TokenModel {
        match self {
            Token::CommentOpen => TokenModel::CommentOpen,
            Token::CommentClose => TokenModel::CommentClose,
            Token::Tick => TokenModel::Tick,
            Token::Newline => TokenModel::Newline,
            Token::Raw(text) => TokenModel::Raw(text@),
        }
    }
}

impl Clone for Token {
    fn clone(&self) -> (copy: Self)
        ensures
            copy@ == self@,
    {
        match self {
            Token::CommentOpen => Token::CommentOpen,
            Token::CommentClose => Token::CommentClose,
            Token::Tick => Token::Tick,
            Token::Newline => Token::Newline,
            Token::Raw(text) => Token::Raw(text.clone()),
        }
    }
}

/// The iterator of `peekmore` over any iterator; what is inside is not visible here.
#[verifier::external_type_specification]
#[verifier::external_body]
#[verifier::reject_recursive_types(I)]
pub struct ExPeekMoreIterator<I: Iterator>(PeekMoreIterator<I>);

/// The characters that a multi-peek iterator over a string has yet to give, in order.
pub uninterp spec fn unread(it: PeekMoreIterator<Chars<'_>>) -> Seq<char>;

/// `PeekMore::peekmore` on the characters of `src`: a multi-peek iterator
/// that has all of them yet to give.
#[verifier::external_body]
fn peekmore_chars<'a>(src: &'a str) -> (it: PeekMoreIterator<Chars<'a>>)
    ensures
        unread(it) == src@,
{
    src.chars().peekmore()
}

/// `PeekMoreIterator::next`: gives the first unread character and moves past
/// it, or gives `None` at the end.
#[verifier::external_body]
fn peekmore_next(it: &mut PeekMoreIterator<Chars<'_>>) -> (c: Option<char>)
    ensures
        unread(*old(it)).len() == 0 ==> c is None && unread(*final(it)) == unread(*old(it)),
        unread(*old(it)).len() > 0 ==> c == Some(unread(*old(it))[0]) && unread(*final(it))
            == unread(*old(it)).skip(1),
{
    it.next()
}

/// `PeekMoreIterator::peek_nth`: the unread character at place `n`, counted
/// from zero, without moving; `None` where fewer are left. The iterator
/// queues up to `n + 1` entries, so `n` is kept small.
#[verifier::external_body]
fn peekmore_peek_nth(it: &mut PeekMoreIterator<Chars<'_>>, n: usize) -> (c: Option<char>)
    requires
        n <= u16::MAX,
    ensures
        unread(*final(it)) == unread(*old(it)),
        c == if n < unread(*old(it)).len() {
            Some(unread(*old(it))[n as int])
        } else {
            None
        },
{
    it.peek_nth(n).copied()
}

/// The state of a document lexer.
pub struct LexerModel {
    /// The characters that are still to be read.
    pub rest: Seq<char>,
    /// The raw text gathered since the last raw token.
    pub raw: Seq<char>,
    /// A mark that was read and is held back behind the raw text before it.
    pub produced: Option<TokenModel>,
}

/// Whether `s` starts with the characters of `prefix`.
pub open spec fn starts_with(s: Seq<char>, prefix: Seq<char>) -> bool {
    prefix.len() <= s.len() && s.take(prefix.len() as int) == prefix
}

/// The outcome of reading the mark `mark`, with `rest` behind it: the raw
/// text gathered before the mark comes first, if there is any, and the mark
/// is then held back.
pub open spec fn emit(mark: TokenModel, rest: Seq<char>, raw: Seq<char>) -> (
    Option<TokenModel>,
    LexerModel,
) {
    if raw.len() == 0 {
        (Some(mark), LexerModel { rest, raw, produced: None })
    } else {
        (
            Some(TokenModel::Raw(raw)),
            LexerModel { rest, raw: Seq::empty(), produced: Some(mark) },
        )
    }
}

/// Reads on from `rest`, with the raw text `raw` gathered so far, up to the
/// next token.
///
/// A line end, a backtick and `-->` are marks, and the raw text before a mark
/// comes out before it. `<!--` comes out at once: raw text gathered before it
/// stays gathered and joins the raw text that follows. At the end of the
/// input the gathered raw text comes out, if there is any.
pub open spec fn scan(rest: Seq<char>, raw: Seq<char>) -> (Option<TokenModel>, LexerModel)
    decreases rest.len(),
{
    if rest.len() == 0 {
        if raw.len() == 0 {
            (None, LexerModel { rest, raw, produced: None })
        } else {
            (Some(TokenModel::Raw(raw)), LexerModel { rest, raw: Seq::empty(), produced: None })
        }
    } else if starts_with(rest, "<!--"@) {
        (Some(TokenModel::CommentOpen), LexerModel { rest: rest.skip(4), raw, produced: None })
    } else if rest[0] == '\n' {
        emit(TokenModel::Newline, rest.skip(1), raw)
    } else if rest[0] == '`' {
        emit(TokenModel::Tick, rest.skip(1), raw)
    } else if starts_with(rest, "-->"@) {
        emit(TokenModel::CommentClose, rest.skip(3), raw)
    } else {
        scan(rest.skip(1), raw.push(rest[0]))
    }
}

impl LexerModel {
    /// The lexer at the start of the document `src`.
    pub open spec fn start(src: Seq<char>) -> LexerModel {
        LexerModel { rest: src, raw: Seq::empty(), produced: None }
    }

    /// The next token, if there is one, and the state behind it.
    pub open spec fn next(self) -> (Option<TokenModel>, LexerModel) {
        if self.produced is Some {
            (self.produced, LexerModel { rest: self.rest, raw: self.raw, produced: None })
        } else {
            scan(self.rest, self.raw)
        }
    }

    /// What bounds the number of tokens that are still to come.
    pub open spec fn pending(self) -> nat {
        2 * self.rest.len() + (if self.raw.len() > 0 {
            1nat
        } else {
            0nat
        }) + (if self.produced is Some {
            1nat
        } else {
            0nat
        })
    }

    /// All the tokens that are still to come, in order.
    pub open spec fn tokens(self) -> Seq<TokenModel>
        decreases self.pending(),
        via Self::tokens_decreases
    {
        match self.next().0 {
            None => Seq::empty(),
            Some(token) => seq![token] + self.next().1.tokens(),
        }
    }

    #[via_fn]
    proof fn tokens_decreases(self) {
        self.lemma_next_progress();
    }

    /// Each token brings the lexer nearer to the end.
    pub proof fn lemma_next_progress(self)
        ensures
            self.next().0 is Some ==> self.next().1.pending() < self.pending(),
    {
        if self.produced is None {
            lemma_scan_progress(self.rest, self.raw);
        }
    }
}

/// A scan that gives a token leaves less to do than there was.
pub proof fn lemma_scan_progress(rest: Seq<char>, raw: Seq<char>)
    ensures
        scan(rest, raw).0 is Some ==> scan(rest, raw).1.pending() < (LexerModel {
            rest,
            raw,
            produced: None,
        }).pending(),
        scan(rest, raw).0 is Some ==> scan(rest, raw).1.pending() < 2 * rest.len() + 2,
    decreases rest.len(),
{
    if rest.len() > 0 && !starts_with(rest, "<!--"@) && rest[0] != '\n' && rest[0] != '`'
        && !starts_with(rest, "-->"@) {
        lemma_scan_progress(rest.skip(1), raw.push(rest[0]));
    }
    if rest.len() > 0 {
        reveal_strlit("<!--");
        reveal_strlit("-->");
    }
}

/// The marks of a comment, read one character after the other: `<!--` is `<`
/// before `!--`, and `-->` is `-` before `->`.
pub proof fn lemma_comment_marks(rest: Seq<char>)
    requires
        rest.len() > 0,
    ensures
        starts_with(rest, "<!--"@) <==> rest[0] == '<' && starts_with(
            rest.skip(1),
            seq!['!', '-', '-'],
        ),
        starts_with(rest, "-->"@) <==> rest[0] == '-' && starts_with(rest.skip(1), seq!['-', '>']),
        rest.len() >= 4 ==> rest.skip(1).skip(1).skip(1).skip(1) == rest.skip(4),
        rest.len() >= 3 ==> rest.skip(1).skip(1).skip(1) == rest.skip(3),
{
    reveal_strlit("<!--");
    reveal_strlit("-->");
    let open = seq!['<', '!', '-', '-'];
    let close = seq!['-', '-', '>'];
    assert("<!--"@ =~= open);
    assert("-->"@ =~= close);
    let tail = rest.skip(1);
    if rest.len() >= 4 {
        assert(rest.skip(1).skip(1).skip(1).skip(1) =~= rest.skip(4));
        if rest.take(4) == open {
            assert(rest[0] == rest.take(4)[0]);
            assert(tail.take(3) =~= seq!['!', '-', '-']) by {
                assert(tail.take(3)[0] == rest.take(4)[1]);
                assert(tail.take(3)[1] == rest.take(4)[2]);
                assert(tail.take(3)[2] == rest.take(4)[3]);
            }
        }
        if rest[0] == '<' && tail.take(3) == seq!['!', '-', '-'] {
            assert(rest.take(4) =~= open) by {
                assert(rest.take(4)[1] == tail.take(3)[0]);
                assert(rest.take(4)[2] == tail.take(3)[1]);
                assert(rest.take(4)[3] == tail.take(3)[2]);
            }
        }
    }
    if rest.len() >= 3 {
        assert(rest.skip(1).skip(1).skip(1) =~= rest.skip(3));
        if rest.take(3) == close {
            assert(rest[0] == rest.take(3)[0]);
            assert(tail.take(2) =~= seq!['-', '>']) by {
                assert(tail.take(2)[0] == rest.take(3)[1]);
                assert(tail.take(2)[1] == rest.take(3)[2]);
            }
        }
        if rest[0] == '-' && tail.take(2) == seq!['-', '>'] {
            assert(rest.take(3) =~= close) by {
                assert(rest.take(3)[1] == tail.take(2)[0]);
                assert(rest.take(3)[2] == tail.take(2)[1]);
            }
        }
    }
}

/// The mathematical values of the tokens in `tokens`, in order.
pub open spec fn tokens_view(tokens: Seq<Token>) -> Seq<TokenModel> {
    Seq::new(tokens.len(), |i: int| tokens[i]@)
}

/// A lexer over a document.
pub struct Lexer<'a> {
    /// The characters of the document that are still to be read.
    src: PeekMoreIterator<Chars<'a>>,
    /// The raw text gathered since the last raw token.
    raw_acc: String,
    /// A mark that is held back behind the raw text before it.
    produced: Option<Token>,
}

impl<'a> View for Lexer<'a> {
    type V = LexerModel;

    closed spec fn view(&self) -> LexerModel {
        LexerModel {
            rest: unread(self.src),
            raw: self.raw_acc@,
            produced: match self.produced {
                Some(token) => Some(token@),
                None => None,
            },
        }
    }
}

impl<'a> Lexer<'a> {
    /// A lexer at the start of the document `src`.
    pub fn new(src: &'a str) -> (lexer: Self)
        ensures
            lexer@ == LexerModel::start(src@),
    {
        Lexer { src: peekmore_chars(src), raw_acc: String::new(), produced: None }
    }

    /// Takes the gathered raw text out as a token, if there is any.
    fn take_raw(&mut self) -> (token: Option<Token>)
        ensures
            final(self)@ == (LexerModel { raw: Seq::empty(), ..old(self)@ }),
            match token {
                None => old(self)@.raw == Seq::<char>::empty(),
                Some(token) => old(self)@.raw.len() > 0 && token@ == TokenModel::Raw(
                    old(self)@.raw,
                ),
            },
    {
        if self.raw_acc.as_str().is_empty() {
            assert(self@.raw =~= Seq::<char>::empty());
            None
        } else {
            let mut raw = String::new();
            core::mem::swap(&mut self.raw_acc, &mut raw);
            Some(Token::Raw(raw))
        }
    }

    /// Whether the unread input starts with the three characters given.
    fn lookahead(&mut self, first: char, second: char, third: char) -> (yes: bool)
        ensures
            final(self)@ == old(self)@,
            yes == starts_with(old(self)@.rest, seq![first, second, third]),
    {
        let ghost rest = self@.rest;
        let yes = peekmore_peek_nth(&mut self.src, 0) == Some(first) && peekmore_peek_nth(
            &mut self.src,
            1,
        ) == Some(second) && peekmore_peek_nth(&mut self.src, 2) == Some(third);
        proof {
            if yes {
                assert(rest.take(3) =~= seq![first, second, third]);
            } else if rest.len() >= 3 {
                assert(rest.take(3)[0] == rest[0]);
                assert(rest.take(3)[1] == rest[1]);
                assert(rest.take(3)[2] == rest[2]);
            }
        }
        yes
    }

    /// Reads the next token, or `None` at the end of the document.
    pub fn next(&mut self) -> (token: Option<Token>)
        ensures
            match token {
                Some(token) => Some(token@),
                None => None,
            } == old(self)@.next().0,
            final(self)@ == old(self)@.next().1,
    {
        if self.produced.is_some() {
            let mut token = None;
            core::mem::swap(&mut self.produced, &mut token);
            return token;
        }
        loop
            invariant
                self@.produced is None,
                old(self)@.produced is None,
                scan(self@.rest, self@.raw) == scan(old(self)@.rest, old(self)@.raw),
            decreases self@.rest.len(),
        {
            let ghost rest = self@.rest;
            let next = match peekmore_next(&mut self.src) {
                None => {
                    return self.take_raw();
                },
                Some(c) => c,
            };
            proof {
                lemma_comment_marks(rest);
            }
            let mark = if next == '\n' {
                Some(Token::Newline)
            } else if next == '`' {
                Some(Token::Tick)
            } else if next == '<' {
                if self.lookahead('!', '-', '-') {
                    let _ = peekmore_next(&mut self.src);
                    let _ = peekmore_next(&mut self.src);
                    let _ = peekmore_next(&mut self.src);
                    return Some(Token::CommentOpen);
                }
                None
            } else if next == '-' {
                if self.close_follows() {
                    let _ = peekmore_next(&mut self.src);
                    let _ = peekmore_next(&mut self.src);
                    Some(Token::CommentClose)
                } else {
                    None
                }
            } else {
                None
            };
            match mark {
                Some(token) => {
                    return match self.take_raw() {
                        Some(raw) => {
                            self.produced = Some(token);
                            Some(raw)
                        },
                        None => Some(token),
                    };
                },
                None => {
                    self.raw_acc.push(next);
                },
            }
        }
    }

    /// Whether the unread input starts with `->`.
    fn close_follows(&mut self) -> (yes: bool)
        ensures
            final(self)@ == old(self)@,
            yes == starts_with(old(self)@.rest, seq!['-', '>']),
    {
        let ghost rest = self@.rest;
        let yes = peekmore_peek_nth(&mut self.src, 0) == Some('-') && peekmore_peek_nth(
            &mut self.src,
            1,
        ) == Some('>');
        proof {
            if yes {
                assert(rest.take(2) =~= seq!['-', '>']);
            } else if rest.len() >= 2 {
                assert(rest.take(2)[0] == rest[0]);
                assert(rest.take(2)[1] == rest[1]);
            }
        }
        yes
    }
}

/// The tokens of the document `src`, in order.
pub fn lex(src: &str) -> (tokens: Vec<Token>)
    ensures
        tokens_view(tokens@) == LexerModel::start(src@).tokens(),
{
    let mut lexer = Lexer::new(src);
    let mut tokens: Vec<Token> = Vec::new();
    loop
        invariant
            LexerModel::start(src@).tokens() == tokens_view(tokens@) + lexer@.tokens(),
        decreases lexer@.pending(),
    {
        let ghost before = lexer@;
        let ghost done = tokens_view(tokens@);
        proof {
            before.lemma_next_progress();
        }
        match lexer.next() {
            None => {
                assert(done + Seq::<TokenModel>::empty() =~= done);
                return tokens;
            },
            Some(token) => {
                proof {
                    assert(done + (seq![token@] + lexer@.tokens()) =~= done.push(token@)
                        + lexer@.tokens());
                }
                tokens.push(token);
                assert(tokens_view(tokens@) =~= done.push(token@));
            },
        }
    }
}

} // verus!
