//! The script lexer: a single forward scan that turns script text into
//! tokens.

use crate::text::{
    chars_of, is_ascii_alphabetic, is_ascii_digit, lemma_run_end, number_value, parse_decimal,
    run_end, scan_run, spec_is_ascii_alphabetic, spec_is_ascii_digit, str_is, string_of_range,
    CharClass,
};
use vstd::prelude::*;

verus! {

/// One lexical unit of a script.
#[derive(Debug, PartialEq, Eq)]
pub enum Token {
    Punctuator(char),
    Number(u64),
    Identifier(String),
    Keyword(String),
    StringLiteral(String),
}

pub enum TokenModel {
    Punctuator(char),
    Number(u64),
    Identifier(Seq<char>),
    Keyword(Seq<char>),
    StringLiteral(Seq<char>),
}

impl View for Token {
    type V = TokenModel;

    open spec fn view(&self) -> TokenModel {
        match self {
            Token::Punctuator(c) => TokenModel::Punctuator(*c),
            Token::Number(n) => TokenModel::Number(*n),
            Token::Identifier(s) => TokenModel::Identifier(s@),
            Token::Keyword(s) => TokenModel::Keyword(s@),
            Token::StringLiteral(s) => TokenModel::StringLiteral(s@),
        }
    }
}

impl Clone for Token {
    fn clone(&self) -> (r: Self)
        ensures
            r@ == self@,
    {
        match self {
            Token::Punctuator(c) => Token::Punctuator(*c),
            Token::Number(n) => Token::Number(*n),
            Token::Identifier(s) => Token::Identifier(s.clone()),
            Token::Keyword(s) => Token::Keyword(s.clone()),
            Token::StringLiteral(s) => Token::StringLiteral(s.clone()),
        }
    }
}

pub open spec fn is_punctuator(c: char) -> bool {
    c == '+' || c == '-' || c == ';' || c == '=' || c == '(' || c == ')' || c == '{' || c == '}'
        || c == ',' || c == '.'
}

/// The words that are no identifiers.
pub open spec fn is_reserved_word(word: Seq<char>) -> bool {
    word == "var"@ || word == "function"@ || word == "return"@
}

/// The token that starts at `p`, with the index just after it, or `None` if
/// no token starts there: at a character that starts none, and at a number
/// that does not fit 64 bits. `p` must index a non-blank character.
pub open spec fn token_at(s: Seq<char>, p: int) -> Option<(TokenModel, int)> {
    let c = s[p];
    if is_punctuator(c) {
        Some((TokenModel::Punctuator(c), p + 1))
    } else if c == '"' {
        let e = run_end(s, p + 1, CharClass::Unquoted('"'));
        Some(
            (TokenModel::StringLiteral(s.subrange(p + 1, e)), if e < s.len() {
                e + 1
            } else {
                e
            }),
        )
    } else if spec_is_ascii_digit(c) {
        let e = run_end(s, p, CharClass::Digit);
        let value = number_value(s.subrange(p, e));
        if value <= u64::MAX {
            Some((TokenModel::Number(value as u64), e))
        } else {
            None
        }
    } else if spec_is_ascii_alphabetic(c) || c == '_' || c == '$' {
        let e = run_end(s, p + 1, CharClass::Name);
        let word = s.subrange(p, e);
        if is_reserved_word(word) {
            Some((TokenModel::Keyword(word), e))
        } else {
            Some((TokenModel::Identifier(word), e))
        }
    } else {
        None
    }
}

/// Every token ends after the place where it starts, and inside the text.
pub proof fn lemma_token_advances(s: Seq<char>, p: int)
    requires
        0 <= p < s.len(),
    ensures
        token_at(s, p) is Some ==> p < (token_at(s, p)->0).1 <= s.len(),
{
    lemma_run_end(s, p + 1, CharClass::Unquoted('"'));
    lemma_run_end(s, p + 1, CharClass::Name);
    lemma_run_end(s, p, CharClass::Digit);
}

/// What scanning from `p` to the end of the text yields: all the tokens, or
/// the index at which no token starts.
pub open spec fn tokens_from(s: Seq<char>, p: int) -> Result<Seq<TokenModel>, int>
    decreases s.len() - p,
{
    let q = run_end(s, p, CharClass::Blank);
    if 0 <= p <= q < s.len() {
        match token_at(s, q) {
            None => Err(q),
            Some((t, n)) => if q < n <= s.len() {
                match tokens_from(s, n) {
                    Ok(rest) => Ok(seq![t] + rest),
                    Err(at) => Err(at),
                }
            } else {
                Ok(seq![t])
            },
        }
    } else {
        Ok(Seq::empty())
    }
}

/// A scanner over the text of a script. It moves forward only.
#[derive(Debug, PartialEq, Eq)]
pub struct JsLexer {
    pos: usize,
    input: Vec<char>,
}

pub struct JsLexerModel {
    pub input: Seq<char>,
    pub pos: nat,
}

impl View for JsLexer {
    type V = JsLexerModel;

    closed spec fn view(&self) -> JsLexerModel {
        JsLexerModel { input: self.input@, pos: self.pos as nat }
    }
}

fn punctuator(c: char) -> (r: bool)
    ensures
        r == is_punctuator(c),
{
    c == '+' || c == '-' || c == ';' || c == '=' || c == '(' || c == ')' || c == '{' || c == '}'
        || c == ',' || c == '.'
}

impl JsLexer {
    pub fn new(js: String) -> (l: Self)
        ensures
            l@ == (JsLexerModel { input: js@, pos: 0 }),
    {
        Self { pos: 0, input: chars_of(js.as_str()) }
    }

    /// The next token, if the text holds one more.
    ///
    /// Blanks before the token are skipped. The result is `None` at the end of
    /// the text, and also where no token starts: the scanner then stays
    /// there, and `rejected` reports the character.
    pub fn next(&mut self) -> (r: Option<Token>)
        ensures
            final(self)@.input == old(self)@.input,
            ({
                let s = old(self)@.input;
                let q = run_end(s, old(self)@.pos as int, CharClass::Blank);
                if old(self)@.pos <= q < s.len() {
                    match token_at(s, q) {
                        Some((t, n)) => r is Some && r->0@ == t && final(self)@.pos == n,
                        None => r is None && final(self)@.pos == q,
                    }
                } else {
                    r is None && final(self)@.pos == old(self)@.pos
                }
            }),
    {
        if self.pos >= self.input.len() {
            return None;
        }
        let q = scan_run(&self.input, self.pos, CharClass::Blank);
        if q >= self.input.len() {
            proof {
                lemma_run_end(self.input@, self.pos as int, CharClass::Blank);
            }
            return None;
        }
        let c = self.input[q];
        let ghost s = self.input@;
        proof {
            lemma_token_advances(s, q as int);
            lemma_run_end(s, q as int, CharClass::Digit);
        }
        if punctuator(c) {
            self.pos = q + 1;
            Some(Token::Punctuator(c))
        } else if c == '"' {
            let e = scan_run(&self.input, q + 1, CharClass::Unquoted('"'));
            let value = string_of_range(&self.input, q + 1, e);
            self.pos = if e < self.input.len() {
                e + 1
            } else {
                e
            };
            Some(Token::StringLiteral(value))
        } else if is_ascii_digit(c) {
            let e = scan_run(&self.input, q, CharClass::Digit);
            match parse_decimal(&self.input, q, e) {
                Some(value) => {
                    self.pos = e;
                    Some(Token::Number(value))
                },
                None => {
                    self.pos = q;
                    None
                },
            }
        } else if is_ascii_alphabetic(c) || c == '_' || c == '$' {
            let e = scan_run(&self.input, q + 1, CharClass::Name);
            let word = string_of_range(&self.input, q, e);
            self.pos = e;
            if str_is(&word, "var") || str_is(&word, "function") || str_is(&word, "return") {
                Some(Token::Keyword(word))
            } else {
                Some(Token::Identifier(word))
            }
        } else {
            self.pos = q;
            None
        }
    }

    /// The character at which the scan has stopped because no token starts
    /// there, if it has.
    pub fn rejected(&self) -> (r: Option<char>)
        ensures
            ({
                let s = self@.input;
                let q = run_end(s, self@.pos as int, CharClass::Blank);
                r == if self@.pos <= q < s.len() && token_at(s, q) is None {
                    Some(s[q])
                } else {
                    None
                }
            }),
    {
        if self.pos >= self.input.len() {
            return None;
        }
        let q = scan_run(&self.input, self.pos, CharClass::Blank);
        if q >= self.input.len() {
            return None;
        }
        let c = self.input[q];
        proof {
            lemma_run_end(self.input@, q as int, CharClass::Digit);
        }
        if punctuator(c) || c == '"' || is_ascii_alphabetic(c) || c == '_' || c == '$' {
            None
        } else if is_ascii_digit(c) {
            let e = scan_run(&self.input, q, CharClass::Digit);
            match parse_decimal(&self.input, q, e) {
                Some(_) => None,
                None => Some(c),
            }
        } else {
            Some(c)
        }
    }
}

/// A text without characters holds no token.
pub proof fn lemma_empty_text()
    ensures
        tokens_from(Seq::empty(), 0) == Ok::<Seq<TokenModel>, int>(Seq::empty()),
{
}

} // verus!
