//! Tokens of the expression language and the lexer that produces them.
//!
//! The lexer reads a snippet one character at a time. Whitespace separates
//! tokens and is dropped. A maximal run of decimal digits is an integer
//! literal; a letter or an underscore starts a maximal run of letters, digits
//! and underscores, which is the keyword `is`, the literal `nil`, or an
//! identifier; `(` and `)` stand for themselves; each of `+ - * /` is an
//! identifier of one character. Any other character is an error, and so is a
//! literal that does not fit in an `i64`.

use crate::text::{
    alphabetic, alphanumeric, collect_chars, decimal_digits, decimal_text, decimal_value,
    digit_value, lemma_decimal_round_trip, push_decimal_text, white_space,
};
use vstd::prelude::*;
use vstd::string::StringExecFns;

verus! {

/// A token of the expression language.
#[derive(Debug, PartialEq)]
pub enum Token {
    /// The `is` keyword.
    Is,
    /// An identifier.
    Identifier(String),
    /// An integer literal.
    Int(i64),
    /// The `nil` literal.
    Nil,
    /// `(`
    OpenParens,
    /// `)`
    CloseParens,
}

/// The mathematical value of a [`Token`].
pub enum TokenModel {
    Is,
    Identifier(Seq<char>),
    Int(i64),
    Nil,
    OpenParens,
    CloseParens,
}

impl TokenModel {
    /// The token as it is written in the source.
    pub open spec fn text(self) -> Seq<char> {
        match self {
            TokenModel::Is => "is"@,
            TokenModel::Identifier(text) => text,
            TokenModel::Int(i) => decimal_text(i as int),
            TokenModel::Nil => "nil"@,
            TokenModel::OpenParens => "("@,
            TokenModel::CloseParens => ")"@,
        }
    }
}

impl View for Token {
    type V = TokenModel;

    open spec fn view(&self) -> TokenModel {
        match self {
            Token::Is => TokenModel::Is,
            Token::Identifier(text) => TokenModel::Identifier(text@),
            Token::Int(i) => TokenModel::Int(*i),
            Token::Nil => TokenModel::Nil,
            Token::OpenParens => TokenModel::OpenParens,
            Token::CloseParens => TokenModel::CloseParens,
        }
    }
}

impl Clone for Token {
    fn clone(&self) -> (copy: Self)
        ensures
            copy@ == self@,
    {
        match self {
            Token::Is => Token::Is,
            Token::Identifier(text) => Token::Identifier(text.clone()),
            Token::Int(i) => Token::Int(*i),
            Token::Nil => Token::Nil,
            Token::OpenParens => Token::OpenParens,
            Token::CloseParens => Token::CloseParens,
        }
    }
}

impl Token {
    /// The token as it is written in the source.
    pub fn to_string(&self) -> (text: String)
        ensures
            text@ == self@.text(),
    {
        match self {
            Token::Is => String::from_str("is"),
            Token::Identifier(text) => text.clone(),
            Token::Int(i) => {
                let mut text = String::new();
                push_decimal_text(&mut text, *i);
                text
            },
            Token::Nil => String::from_str("nil"),
            Token::OpenParens => String::from_str("("),
            Token::CloseParens => String::from_str(")"),
        }
    }
}

/// Why a piece of input is not a token.
#[derive(Clone, Copy, Debug, PartialEq, Eq)]
pub enum LexError {
    /// A character that starts no token.
    UnexpectedChar(char),
    /// An integer literal greater than `i64::MAX`.
    IntegerOverflow,
}

impl LexError {
    /// What the error says.
    pub open spec fn message(self) -> Seq<char> {
        match self {
            LexError::UnexpectedChar(c) => "unexpected character "@.push(c),
            LexError::IntegerOverflow => "integer literal out of range"@,
        }
    }

    /// What the error says.
    pub fn to_string(&self) -> (text: String)
        ensures
            text@ == self.message(),
    {
        match self {
            LexError::UnexpectedChar(c) => {
                let mut text = String::from_str("unexpected character ");
                text.push(*c);
                text
            },
            LexError::IntegerOverflow => String::from_str("integer literal out of range"),
        }
    }
}

/// One item of a token stream, as a mathematical value.
pub type LexItem = Result<TokenModel, LexError>;

/// The mathematical value of what [`Lexer::next`] returns.
pub open spec fn item_view(item: Option<Result<Token, LexError>>) -> Option<LexItem> {
    match item {
        None => None,
        Some(Ok(token)) => Some(Ok(token@)),
        Some(Err(e)) => Some(Err(e)),
    }
}

/// The classes of characters that the lexer reads in runs.
pub enum CharClass {
    /// Characters between tokens.
    Whitespace,
    /// Decimal digits.
    Digit,
    /// Characters that continue an identifier.
    Word,
}

impl CharClass {
    /// Whether `c` belongs to the class.
    pub open spec fn holds(self, c: char) -> bool {
        match self {
            CharClass::Whitespace => white_space(c),
            CharClass::Digit => digit_value(c, 10) is Some,
            CharClass::Word => alphanumeric(c) || c == '_',
        }
    }
}

/// Whether `c` can start an identifier or a keyword.
pub open spec fn starts_word(c: char) -> bool {
    alphabetic(c) || c == '_'
}

/// Whether `c` is one of the operator characters, each an identifier by itself.
pub open spec fn is_operator(c: char) -> bool {
    c == '+' || c == '-' || c == '*' || c == '/'
}

/// The length of the longest prefix of `s` whose characters all belong to `class`.
pub open spec fn run_len(s: Seq<char>, class: CharClass) -> nat
    decreases s.len(),
{
    if s.len() > 0 && class.holds(s[0]) {
        1 + run_len(s.drop_first(), class)
    } else {
        0
    }
}

/// The token that a run of word characters stands for.
pub open spec fn word_token(text: Seq<char>) -> TokenModel {
    if text == "is"@ {
        TokenModel::Is
    } else if text == "nil"@ {
        TokenModel::Nil
    } else {
        TokenModel::Identifier(text)
    }
}

/// The token that an integer literal stands for, if it fits.
pub open spec fn int_token(digits: Seq<char>) -> LexItem {
    if decimal_value(digits) <= i64::MAX {
        Ok(TokenModel::Int(decimal_value(digits) as i64))
    } else {
        Err(LexError::IntegerOverflow)
    }
}

/// The first item of the input `s`, and the input that follows it. The item is
/// `None` when nothing but whitespace is left.
pub open spec fn next_token(s: Seq<char>) -> (Option<LexItem>, Seq<char>) {
    let t = s.skip(run_len(s, CharClass::Whitespace) as int);
    if t.len() == 0 {
        (None, t)
    } else if CharClass::Digit.holds(t[0]) {
        let n = run_len(t, CharClass::Digit) as int;
        (Some(int_token(t.take(n))), t.skip(n))
    } else if starts_word(t[0]) {
        let n = 1 + run_len(t.skip(1), CharClass::Word) as int;
        (Some(Ok(word_token(t.take(n)))), t.skip(n))
    } else if t[0] == '(' {
        (Some(Ok(TokenModel::OpenParens)), t.skip(1))
    } else if t[0] == ')' {
        (Some(Ok(TokenModel::CloseParens)), t.skip(1))
    } else if is_operator(t[0]) {
        (Some(Ok(TokenModel::Identifier(seq![t[0]]))), t.skip(1))
    } else {
        (Some(Err(LexError::UnexpectedChar(t[0]))), t.skip(1))
    }
}

/// All the items of the input `s`, in order. Lexing goes on after an error.
pub open spec fn tokens(s: Seq<char>) -> Seq<LexItem>
    decreases s.len(),
    via tokens_decreases
{
    match next_token(s).0 {
        None => Seq::empty(),
        Some(item) => seq![item] + tokens(next_token(s).1),
    }
}

#[via_fn]
proof fn tokens_decreases(s: Seq<char>) {
    lemma_next_token_consumes(s);
}

/// A run is no longer than the sequence it is taken from.
pub proof fn lemma_run_len_bound(s: Seq<char>, class: CharClass)
    ensures
        run_len(s, class) <= s.len(),
    decreases s.len(),
{
    if s.len() > 0 && class.holds(s[0]) {
        lemma_run_len_bound(s.drop_first(), class);
    }
}

/// A run is the prefix whose characters all belong to the class and which is
/// followed by the end of the input or by a character outside the class.
pub proof fn lemma_run_len_is(s: Seq<char>, class: CharClass, n: nat)
    requires
        n <= s.len(),
        forall|i: int| 0 <= i < n ==> class.holds(#[trigger] s[i]),
        n == s.len() || !class.holds(s[n as int]),
    ensures
        run_len(s, class) == n,
    decreases n,
{
    if n > 0 {
        let rest = s.drop_first();
        assert forall|i: int| 0 <= i < n - 1 implies class.holds(#[trigger] rest[i]) by {
            assert(rest[i] == s[i + 1]);
        }
        lemma_run_len_is(rest, class, (n - 1) as nat);
    }
}

/// Every item takes at least one character, and what follows an item is a
/// suffix of the input.
pub proof fn lemma_next_token_consumes(s: Seq<char>)
    ensures
        next_token(s).1.len() <= s.len(),
        next_token(s).0 is Some ==> next_token(s).1.len() < s.len(),
{
    lemma_run_len_bound(s, CharClass::Whitespace);
    let t = s.skip(run_len(s, CharClass::Whitespace) as int);
    if t.len() > 0 {
        lemma_run_len_bound(t, CharClass::Digit);
        lemma_run_len_bound(t.skip(1), CharClass::Word);
    }
}

/// Words are read whole: where the input, behind the whitespace `space`,
/// goes on with the characters `word`, of which the first can start a word
/// and the others continue it, and then ends or goes on with a character that
/// continues no word, the next token is the one that the whole word stands
/// for, and exactly the whitespace and the word are read. The token is the
/// keyword `is` only where the whole word is `is`: `is_bar` is an identifier
/// and not `is` before `_bar`.
///
/// The word begins where the whitespace ends, so its first character is no
/// whitespace.
pub proof fn lemma_word_is_one_token(space: Seq<char>, word: Seq<char>, rest: Seq<char>)
    requires
        forall|i: int| 0 <= i < space.len() ==> CharClass::Whitespace.holds(#[trigger] space[i]),
        word.len() > 0,
        starts_word(word[0]),
        !CharClass::Whitespace.holds(word[0]),
        forall|i: int| 1 <= i < word.len() ==> CharClass::Word.holds(#[trigger] word[i]),
        rest.len() == 0 || !CharClass::Word.holds(rest[0]),
    ensures
        next_token(space + word + rest) == (
            Some(Ok::<TokenModel, LexError>(word_token(word))),
            rest,
        ),
        word_token(word) == TokenModel::Is <==> word == "is"@,
        word_token(word) == TokenModel::Nil <==> word == "nil"@,
        word != "is"@ && word != "nil"@ ==> word_token(word) == TokenModel::Identifier(word),
{
    let s = space + word + rest;
    let t = word + rest;
    assert forall|i: int| 0 <= i < space.len() implies CharClass::Whitespace.holds(
        #[trigger] s[i],
    ) by {
        assert(s[i] == space[i]);
    }
    assert(s[space.len() as int] == word[0]);
    lemma_run_len_is(s, CharClass::Whitespace, space.len());
    assert(s.skip(space.len() as int) =~= t);
    assert(t[0] == word[0]);
    assert(!CharClass::Digit.holds(word[0]));
    let tail = t.skip(1);
    let n = (word.len() - 1) as nat;
    assert forall|i: int| 0 <= i < n implies CharClass::Word.holds(#[trigger] tail[i]) by {
        assert(tail[i] == word[i + 1]);
    }
    if rest.len() > 0 {
        assert(tail[n as int] == rest[0]);
    }
    lemma_run_len_is(tail, CharClass::Word, n);
    assert(t.take(word.len() as int) =~= word);
    assert(t.skip(word.len() as int) =~= rest);
    reveal_strlit("is");
    reveal_strlit("nil");
    assert("is"@.len() != "nil"@.len());
}

/// Integer literals are read whole: where the input, behind the whitespace
/// `space`, goes on with the decimal digits `digits` and then ends or goes on
/// with a character that is no digit, the next token is the integer that the
/// digits denote, or the one error of a number that is too large, and exactly
/// the whitespace and the digits are read.
pub proof fn lemma_digits_are_one_token(space: Seq<char>, digits: Seq<char>, rest: Seq<char>)
    requires
        forall|i: int| 0 <= i < space.len() ==> CharClass::Whitespace.holds(#[trigger] space[i]),
        digits.len() > 0,
        forall|i: int| 0 <= i < digits.len() ==> CharClass::Digit.holds(#[trigger] digits[i]),
        rest.len() == 0 || !CharClass::Digit.holds(rest[0]),
    ensures
        next_token(space + digits + rest) == (Some(int_token(digits)), rest),
{
    let s = space + digits + rest;
    let t = digits + rest;
    assert forall|i: int| 0 <= i < space.len() implies CharClass::Whitespace.holds(
        #[trigger] s[i],
    ) by {
        assert(s[i] == space[i]);
    }
    assert(s[space.len() as int] == digits[0]);
    assert(CharClass::Digit.holds(digits[0]));
    assert(!CharClass::Whitespace.holds(digits[0]));
    lemma_run_len_is(s, CharClass::Whitespace, space.len());
    assert(s.skip(space.len() as int) =~= t);
    assert forall|i: int| 0 <= i < digits.len() implies CharClass::Digit.holds(#[trigger] t[i]) by {
        assert(t[i] == digits[i]);
    }
    if rest.len() > 0 {
        assert(t[digits.len() as int] == rest[0]);
    }
    lemma_run_len_is(t, CharClass::Digit, digits.len());
    assert(t.take(digits.len() as int) =~= digits);
    assert(t.skip(digits.len() as int) =~= rest);
}

/// The classes of ASCII characters: a decimal digit is `0` to `9`; a letter
/// or an underscore starts a word, and these and the digits continue one;
/// none of them is whitespace, and neither is a parenthesis or an operator,
/// which belong to no class.
pub proof fn lemma_ascii_classes(c: char)
    requires
        c as u32 <= 0x7f,
    ensures
        CharClass::Digit.holds(c) <==> '0' <= c <= '9',
        starts_word(c) <==> 'a' <= c <= 'z' || 'A' <= c <= 'Z' || c == '_',
        CharClass::Word.holds(c) <==> starts_word(c) || '0' <= c <= '9',
        CharClass::Whitespace.holds(c) <==> c == ' ' || 0x09 <= c as u32 <= 0x0d,
        c == '(' || c == ')' || is_operator(c) ==> !CharClass::Whitespace.holds(c)
            && !CharClass::Digit.holds(c) && !CharClass::Word.holds(c),
{
}

/// A literal that fits lexes to its number: the decimal digits of `n`, where
/// `n` is at most `i64::MAX`, are the token of the integer `n`.
pub proof fn lemma_decimal_digits_token(n: nat)
    requires
        n <= i64::MAX,
    ensures
        int_token(decimal_digits(n)) == Ok::<TokenModel, LexError>(TokenModel::Int(n as i64)),
{
    lemma_decimal_round_trip(n);
}

/// A lexer over one snippet: the characters that it has not read yet.
#[derive(Debug)]
pub struct Lexer {
    chars: Vec<char>,
    pos: usize,
}

impl View for Lexer {
    type V = Seq<char>;

    /// The input that is still to be read.
    closed spec fn view(&self) -> Seq<char> {
        self.chars@.skip(self.pos as int)
    }
}

impl Lexer {
    #[verifier::type_invariant]
    spec fn within_input(&self) -> bool {
        self.pos <= self.chars.len()
    }

    /// A lexer at the start of `src`.
    pub fn new(src: &str) -> (lexer: Self)
        ensures
            lexer@ == src@,
    {
        Lexer { chars: collect_chars(src), pos: 0 }
    }

    /// Reads the whitespace at the front of the input.
    fn skip_whitespace(&mut self)
        ensures
            final(self)@ == old(self)@.skip(run_len(old(self)@, CharClass::Whitespace) as int),
            final(self)@.len() <= old(self)@.len(),
    {
        proof {
            use_type_invariant(&*self);
        }
        let start = self.pos;
        while self.pos < self.chars.len() && self.chars[self.pos].is_whitespace()
            invariant
                self.chars == old(self).chars,
                start == old(self).pos,
                start <= self.pos <= self.chars.len(),
                forall|i: int|
                    0 <= i < self.pos - start ==> CharClass::Whitespace.holds(
                        #[trigger] old(self)@[i],
                    ),
            decreases self.chars.len() - self.pos,
        {
            self.pos = self.pos + 1;
        }
        proof {
            lemma_run_len_is(old(self)@, CharClass::Whitespace, (self.pos - start) as nat);
        }
    }

    /// Reads the digits that follow `start` and returns the value of the whole
    /// literal, or `None` if it is greater than `i64::MAX`.
    fn continue_int_lit(&mut self, start: char) -> (value: Option<i64>)
        requires
            CharClass::Digit.holds(start),
        ensures
            final(self)@ == old(self)@.skip(run_len(old(self)@, CharClass::Digit) as int),
            int_token(
                seq![start] + old(self)@.take(run_len(old(self)@, CharClass::Digit) as int),
            ) == match value {
                Some(v) => Ok::<TokenModel, LexError>(TokenModel::Int(v)),
                None => Err(LexError::IntegerOverflow),
            },
    {
        proof {
            use_type_invariant(&*self);
        }
        let begin = self.pos;
        let first = start.to_digit(10);
        let mut acc: i64 = match first {
            Some(d) => d as i64,
            None => 0,
        };
        let mut fits = true;
        let ghost prefix = seq![start];
        proof {
            assert(prefix.drop_last() =~= Seq::<char>::empty());
            assert(decimal_value(prefix.drop_last()) == 0);
        }
        while self.pos < self.chars.len()
            invariant
                self.chars == old(self).chars,
                begin == old(self).pos,
                begin <= self.pos <= self.chars.len(),
                prefix == seq![start] + old(self)@.take(self.pos - begin),
                forall|i: int|
                    0 <= i < self.pos - begin ==> CharClass::Digit.holds(#[trigger] old(self)@[i]),
                fits ==> acc == decimal_value(prefix),
                !fits ==> decimal_value(prefix) > i64::MAX,
                0 <= acc,
            ensures
                self.pos == self.chars.len() || !CharClass::Digit.holds(
                    old(self)@[self.pos - begin],
                ),
            decreases self.chars.len() - self.pos,
        {
            let digit = self.chars[self.pos].to_digit(10);
            match digit {
                None => {
                    break ;
                },
                Some(d) => {
                    proof {
                        let longer = seq![start] + old(self)@.take(self.pos - begin + 1);
                        assert(longer.drop_last() =~= prefix);
                        assert(longer.last() == old(self)@[self.pos - begin]);
                        prefix = longer;
                    }
                    if fits && acc <= (i64::MAX - d as i64) / 10 {
                        acc = 10 * acc + d as i64;
                    } else {
                        fits = false;
                    }
                    self.pos = self.pos + 1;
                },
            }
        }
        proof {
            lemma_run_len_is(old(self)@, CharClass::Digit, (self.pos - begin) as nat);
        }
        if fits {
            Some(acc)
        } else {
            None
        }
    }

    /// Reads the word characters that follow `start` and returns the whole word.
    fn continue_identifier(&mut self, start: char) -> (word: String)
        ensures
            final(self)@ == old(self)@.skip(run_len(old(self)@, CharClass::Word) as int),
            word@ == seq![start] + old(self)@.take(run_len(old(self)@, CharClass::Word) as int),
    {
        proof {
            use_type_invariant(&*self);
        }
        let begin = self.pos;
        let mut word = String::new();
        word.push(start);
        assert(word@ =~= seq![start] + old(self)@.take(0));
        while self.pos < self.chars.len() && (self.chars[self.pos].is_alphanumeric()
            || self.chars[self.pos] == '_')
            invariant
                self.chars == old(self).chars,
                begin == old(self).pos,
                begin <= self.pos <= self.chars.len(),
                word@ == seq![start] + old(self)@.take(self.pos - begin),
                forall|i: int|
                    0 <= i < self.pos - begin ==> CharClass::Word.holds(#[trigger] old(self)@[i]),
            decreases self.chars.len() - self.pos,
        {
            let c = self.chars[self.pos];
            word.push(c);
            assert(word@ =~= seq![start] + old(self)@.take(self.pos - begin + 1));
            self.pos = self.pos + 1;
        }
        proof {
            lemma_run_len_is(old(self)@, CharClass::Word, (self.pos - begin) as nat);
        }
        word
    }

    /// Reads the next item: a token, an error, or `None` at the end of the
    /// input. After an error the lexer stands behind the offending input.
    pub fn next(&mut self) -> (item: Option<Result<Token, LexError>>)
        ensures
            item_view(item) == next_token(old(self)@).0,
            final(self)@ == next_token(old(self)@).1,
    {
        self.skip_whitespace();
        proof {
            use_type_invariant(&*self);
        }
        if self.pos >= self.chars.len() {
            return None;
        }
        let ghost t = self@;
        let c = self.chars[self.pos];
        self.pos = self.pos + 1;
        assert(self@ =~= t.skip(1));
        assert(t[0] == c);
        if c.to_digit(10).is_some() {
            proof {
                lemma_run_len_bound(t.skip(1), CharClass::Digit);
                let n = run_len(t.skip(1), CharClass::Digit) as int;
                assert(t.drop_first() =~= t.skip(1));
                assert(seq![c] + t.skip(1).take(n) =~= t.take(n + 1));
                assert(t.skip(1).skip(n) =~= t.skip(n + 1));
            }
            match self.continue_int_lit(c) {
                Some(value) => Some(Ok(Token::Int(value))),
                None => Some(Err(LexError::IntegerOverflow)),
            }
        } else if c.is_alphabetic() || c == '_' {
            proof {
                lemma_run_len_bound(t.skip(1), CharClass::Word);
                let n = run_len(t.skip(1), CharClass::Word) as int;
                assert(seq![c] + t.skip(1).take(n) =~= t.take(n + 1));
                assert(t.skip(1).skip(n) =~= t.skip(n + 1));
            }
            let word = self.continue_identifier(c);
            if word.as_str().eq("is") {
                Some(Ok(Token::Is))
            } else if word.as_str().eq("nil") {
                Some(Ok(Token::Nil))
            } else {
                Some(Ok(Token::Identifier(word)))
            }
        } else if c == '(' {
            Some(Ok(Token::OpenParens))
        } else if c == ')' {
            Some(Ok(Token::CloseParens))
        } else if c == '+' || c == '-' || c == '*' || c == '/' {
            let mut word = String::new();
            word.push(c);
            assert(word@ =~= seq![c]);
            Some(Ok(Token::Identifier(word)))
        } else {
            Some(Err(LexError::UnexpectedChar(c)))
        }
    }
}

} // verus!
