//! The style tokenizer: a single forward scan that turns stylesheet text into
//! tokens.

use crate::text::{
    chars_of, ident_char, is_ascii_alphabetic, is_ascii_digit, is_ident_char, lemma_run_end,
    run_end, scan_run, spec_is_ascii_alphabetic, spec_is_ascii_digit, string_of_range, CharClass,
};
use vstd::prelude::*;

verus! {

/// One lexical unit of a stylesheet.
///
/// A `HashToken` keeps its leading `#`. A `Number` keeps the numeral as it was
/// written: a run of digits, optionally followed by a point and a second run.
#[derive(Debug, PartialEq, Eq)]
pub enum CssToken {
    HashToken(String),
    Delim(char),
    Number(String),
    Colon,
    SemiColon,
    OpenParenthesis,
    CloseParenthesis,
    OpenCurly,
    CloseCurly,
    Ident(String),
    StringToken(String),
    AtKeyword(String),
}

pub enum CssTokenModel {
    HashToken(Seq<char>),
    Delim(char),
    Number(Seq<char>),
    Colon,
    SemiColon,
    OpenParenthesis,
    CloseParenthesis,
    OpenCurly,
    CloseCurly,
    Ident(Seq<char>),
    StringToken(Seq<char>),
    AtKeyword(Seq<char>),
}

impl View for CssToken {
    type V = CssTokenModel;

    open spec fn view(&self) -> CssTokenModel {
        match self {
            CssToken::HashToken(s) => CssTokenModel::HashToken(s@),
            CssToken::Delim(c) => CssTokenModel::Delim(*c),
            CssToken::Number(s) => CssTokenModel::Number(s@),
            CssToken::Colon => CssTokenModel::Colon,
            CssToken::SemiColon => CssTokenModel::SemiColon,
            CssToken::OpenParenthesis => CssTokenModel::OpenParenthesis,
            CssToken::CloseParenthesis => CssTokenModel::CloseParenthesis,
            CssToken::OpenCurly => CssTokenModel::OpenCurly,
            CssToken::CloseCurly => CssTokenModel::CloseCurly,
            CssToken::Ident(s) => CssTokenModel::Ident(s@),
            CssToken::StringToken(s) => CssTokenModel::StringToken(s@),
            CssToken::AtKeyword(s) => CssTokenModel::AtKeyword(s@),
        }
    }
}

impl Clone for CssToken {
    fn clone(&self) -> (r: Self)
        ensures
            r@ == self@,
    {
        match self {
            CssToken::HashToken(s) => CssToken::HashToken(s.clone()),
            CssToken::Delim(c) => CssToken::Delim(*c),
            CssToken::Number(s) => CssToken::Number(s.clone()),
            CssToken::Colon => CssToken::Colon,
            CssToken::SemiColon => CssToken::SemiColon,
            CssToken::OpenParenthesis => CssToken::OpenParenthesis,
            CssToken::CloseParenthesis => CssToken::CloseParenthesis,
            CssToken::OpenCurly => CssToken::OpenCurly,
            CssToken::CloseCurly => CssToken::CloseCurly,
            CssToken::Ident(s) => CssToken::Ident(s.clone()),
            CssToken::StringToken(s) => CssToken::StringToken(s.clone()),
            CssToken::AtKeyword(s) => CssToken::AtKeyword(s.clone()),
        }
    }
}

/// The token that starts at `p`, with the index just after it, or `None` if
/// the character at `p` starts no token. `p` must index a non-blank character.
pub open spec fn token_at(s: Seq<char>, p: int) -> Option<(CssTokenModel, int)> {
    let c = s[p];
    if c == '(' {
        Some((CssTokenModel::OpenParenthesis, p + 1))
    } else if c == ')' {
        Some((CssTokenModel::CloseParenthesis, p + 1))
    } else if c == ',' || c == '.' {
        Some((CssTokenModel::Delim(c), p + 1))
    } else if c == ':' {
        Some((CssTokenModel::Colon, p + 1))
    } else if c == ';' {
        Some((CssTokenModel::SemiColon, p + 1))
    } else if c == '{' {
        Some((CssTokenModel::OpenCurly, p + 1))
    } else if c == '}' {
        Some((CssTokenModel::CloseCurly, p + 1))
    } else if c == '"' || c == '\'' {
        let e = run_end(s, p + 1, CharClass::Unquoted(c));
        Some(
            (CssTokenModel::StringToken(s.subrange(p + 1, e)), if e < s.len() {
                e + 1
            } else {
                e
            }),
        )
    } else if spec_is_ascii_digit(c) {
        let e = number_end(s, p);
        Some((CssTokenModel::Number(s.subrange(p, e)), e))
    } else if c == '#' {
        let e = run_end(s, p + 1, CharClass::Ident);
        Some((CssTokenModel::HashToken(s.subrange(p, e)), e))
    } else if c == '@' {
        if starts_at_keyword(s, p) {
            let e = run_end(s, p + 1, CharClass::Ident);
            Some((CssTokenModel::AtKeyword(s.subrange(p + 1, e)), e))
        } else {
            Some((CssTokenModel::Delim('@'), p + 1))
        }
    } else if c == '-' || c == '_' || spec_is_ascii_alphabetic(c) {
        let e = run_end(s, p + 1, CharClass::Ident);
        Some((CssTokenModel::Ident(s.subrange(p, e)), e))
    } else {
        None
    }
}

/// Where the numeral that starts at `p` ends: after its digits, and after a
/// point and the digits behind it where a point follows the first run.
pub open spec fn number_end(s: Seq<char>, p: int) -> int {
    let e = run_end(s, p, CharClass::Digit);
    if e < s.len() && s[e] == '.' {
        run_end(s, e + 1, CharClass::Digit)
    } else {
        e
    }
}

/// Whether the `@` at `p` is followed by three identifier characters.
pub open spec fn starts_at_keyword(s: Seq<char>, p: int) -> bool {
    p + 3 < s.len() && is_ident_char(s[p + 1]) && is_ident_char(s[p + 2]) && is_ident_char(
        s[p + 3],
    )
}

/// Every token ends after the place where it starts, and inside the text.
pub proof fn lemma_token_advances(s: Seq<char>, p: int)
    requires
        0 <= p < s.len(),
    ensures
        token_at(s, p) is Some ==> p < (token_at(s, p)->0).1 <= s.len(),
{
    let c = s[p];
    lemma_run_end(s, p + 1, CharClass::Unquoted(c));
    lemma_run_end(s, p + 1, CharClass::Ident);
    lemma_run_end(s, p, CharClass::Digit);
    let e = run_end(s, p, CharClass::Digit);
    if e < s.len() {
        lemma_run_end(s, e + 1, CharClass::Digit);
    }
}

/// What scanning from `p` to the end of the text yields: all the tokens, or
/// the index of the first character that starts none.
pub open spec fn tokens_from(s: Seq<char>, p: int) -> Result<Seq<CssTokenModel>, int>
    decreases s.len() - p,
{
    let q = run_end(s, p, CharClass::Blank);
    if 0 <= p <= q < s.len() {
        match token_at(s, q) {
            None => Err(q),
            Some((t, n)) => if q < n <= s.len() {
                match tokens_from(s, n) {
                    Ok(rest) => Ok(seq![t] + rest),
                    Err(at) => Err(at),
                }
            } else {
                Ok(seq![t])
            },
        }
    } else {
        Ok(Seq::empty())
    }
}

/// A scanner over stylesheet text. It moves forward only.
#[derive(Debug, PartialEq, Eq)]
pub struct CssTokenizer {
    pos: usize,
    input: Vec<char>,
}

pub struct CssTokenizerModel {
    pub input: Seq<char>,
    pub pos: nat,
}

impl View for CssTokenizer {
    type V = CssTokenizerModel;

    closed spec fn view(&self) -> CssTokenizerModel {
        CssTokenizerModel { input: self.input@, pos: self.pos as nat }
    }
}

impl CssTokenizer {
    pub fn new(input: String) -> (t: Self)
        ensures
            t@ == (CssTokenizerModel { input: input@, pos: 0 }),
    {
        Self { pos: 0, input: chars_of(input.as_str()) }
    }

    /// The next token, if the text holds one more.
    ///
    /// Blanks before the token are skipped. The result is `None` at the end of
    /// the text, and also at a character that starts no token: the scanner
    /// then stays on that character, which `rejected` reports.
    pub fn next(&mut self) -> (r: Option<CssToken>)
        ensures
            final(self)@.input == old(self)@.input,
            ({
                let s = old(self)@.input;
                let q = run_end(s, old(self)@.pos as int, CharClass::Blank);
                if old(self)@.pos <= q < s.len() {
                    match token_at(s, q) {
                        Some((t, n)) => r is Some && r->0@ == t && final(self)@.pos == n,
                        None => r is None && final(self)@.pos == q,
                    }
                } else {
                    r is None && final(self)@.pos == old(self)@.pos
                }
            }),
    {
        if self.pos >= self.input.len() {
            return None;
        }
        let q = scan_run(&self.input, self.pos, CharClass::Blank);
        if q >= self.input.len() {
            proof {
                lemma_run_end(self.input@, self.pos as int, CharClass::Blank);
            }
            return None;
        }
        let c = self.input[q];
        let ghost s = self.input@;
        proof {
            lemma_token_advances(s, q as int);
        }
        if c == '(' {
            self.pos = q + 1;
            Some(CssToken::OpenParenthesis)
        } else if c == ')' {
            self.pos = q + 1;
            Some(CssToken::CloseParenthesis)
        } else if c == ',' || c == '.' {
            self.pos = q + 1;
            Some(CssToken::Delim(c))
        } else if c == ':' {
            self.pos = q + 1;
            Some(CssToken::Colon)
        } else if c == ';' {
            self.pos = q + 1;
            Some(CssToken::SemiColon)
        } else if c == '{' {
            self.pos = q + 1;
            Some(CssToken::OpenCurly)
        } else if c == '}' {
            self.pos = q + 1;
            Some(CssToken::CloseCurly)
        } else if c == '"' || c == '\'' {
            let e = scan_run(&self.input, q + 1, CharClass::Unquoted(c));
            let value = string_of_range(&self.input, q + 1, e);
            self.pos = if e < self.input.len() {
                e + 1
            } else {
                e
            };
            Some(CssToken::StringToken(value))
        } else if is_ascii_digit(c) {
            let e = self.consume_numeric_token(q);
            let value = string_of_range(&self.input, q, e);
            self.pos = e;
            Some(CssToken::Number(value))
        } else if c == '#' {
            let e = scan_run(&self.input, q + 1, CharClass::Ident);
            let value = string_of_range(&self.input, q, e);
            self.pos = e;
            Some(CssToken::HashToken(value))
        } else if c == '@' {
            if self.input.len() - q > 3 && ident_char(self.input[q + 1]) && ident_char(
                self.input[q + 2],
            ) && ident_char(self.input[q + 3]) {
                let e = scan_run(&self.input, q + 1, CharClass::Ident);
                let value = string_of_range(&self.input, q + 1, e);
                self.pos = e;
                Some(CssToken::AtKeyword(value))
            } else {
                self.pos = q + 1;
                Some(CssToken::Delim('@'))
            }
        } else if c == '-' || c == '_' || is_ascii_alphabetic(c) {
            let e = scan_run(&self.input, q + 1, CharClass::Ident);
            let value = string_of_range(&self.input, q, e);
            self.pos = e;
            Some(CssToken::Ident(value))
        } else {
            self.pos = q;
            None
        }
    }

    /// Where the numeral that starts at `p` ends.
    fn consume_numeric_token(&self, p: usize) -> (e: usize)
        requires
            p < self.input.len(),
        ensures
            e == number_end(self.input@, p as int),
            p <= e <= self.input.len(),
    {
        let e = scan_run(&self.input, p, CharClass::Digit);
        if e < self.input.len() && self.input[e] == '.' {
            scan_run(&self.input, e + 1, CharClass::Digit)
        } else {
            e
        }
    }

    /// The character on which the scan has stopped because it starts no
    /// token, if it has.
    pub fn rejected(&self) -> (r: Option<char>)
        ensures
            ({
                let s = self@.input;
                let q = run_end(s, self@.pos as int, CharClass::Blank);
                r == if self@.pos <= q < s.len() && token_at(s, q) is None {
                    Some(s[q])
                } else {
                    None
                }
            }),
    {
        if self.pos >= self.input.len() {
            return None;
        }
        let q = scan_run(&self.input, self.pos, CharClass::Blank);
        if q >= self.input.len() {
            return None;
        }
        let c = self.input[q];
        if c == '(' || c == ')' || c == ',' || c == '.' || c == ':' || c == ';' || c == '{' || c
            == '}' || c == '"' || c == '\'' || c == '#' || c == '@' || ident_char(c) {
            None
        } else {
            Some(c)
        }
    }
}

/// A text without characters holds no token.
pub proof fn lemma_empty_text()
    ensures
        tokens_from(Seq::empty(), 0) == Ok::<Seq<CssTokenModel>, int>(Seq::empty()),
{
}

} // verus!
