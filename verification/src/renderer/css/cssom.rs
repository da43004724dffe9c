//! The style parser: from tokens to an ordered list of qualified rules.

use crate::error::{Error, ErrorModel};
use crate::renderer::css::token::{
    lemma_token_advances, tokens_from, CssToken, CssTokenModel, CssTokenizer, CssTokenizerModel,
};
use crate::text::{chars_of, lemma_run_end, run_end, string_of_range, CharClass};
use vstd::prelude::*;
use vstd::string::StringExecFns;

verus! {

/// What a rule applies to.
#[derive(Debug, PartialEq, Eq)]
pub enum Selector {
    TypeSelector(String),
    ClassSelector(String),
    IdSelector(String),
    UnknownSelector,
}

pub enum SelectorModel {
    TypeSelector(Seq<char>),
    ClassSelector(Seq<char>),
    IdSelector(Seq<char>),
    UnknownSelector,
}

impl View for Selector {
    type V = SelectorModel;

    open spec fn view(&self) -> SelectorModel {
        match self {
            Selector::TypeSelector(s) => SelectorModel::TypeSelector(s@),
            Selector::ClassSelector(s) => SelectorModel::ClassSelector(s@),
            Selector::IdSelector(s) => SelectorModel::IdSelector(s@),
            Selector::UnknownSelector => SelectorModel::UnknownSelector,
        }
    }
}

impl Clone for Selector {
    fn clone(&self) -> (r: Self)
        ensures
            r@ == self@,
    {
        match self {
            Selector::TypeSelector(s) => Selector::TypeSelector(s.clone()),
            Selector::ClassSelector(s) => Selector::ClassSelector(s.clone()),
            Selector::IdSelector(s) => Selector::IdSelector(s.clone()),
            Selector::UnknownSelector => Selector::UnknownSelector,
        }
    }
}

/// The value of a declaration: a single token.
pub type ComponentValue = CssToken;

/// One `property: value` pair of a rule.
#[derive(Debug, PartialEq, Eq)]
pub struct Declaration {
    pub property: String,
    pub value: ComponentValue,
}

pub struct DeclarationModel {
    pub property: Seq<char>,
    pub value: CssTokenModel,
}

impl View for Declaration {
    type V = DeclarationModel;

    open spec fn view(&self) -> DeclarationModel {
        DeclarationModel { property: self.property@, value: self.value@ }
    }
}

impl Clone for Declaration {
    fn clone(&self) -> (r: Self)
        ensures
            r@ == self@,
    {
        Declaration { property: self.property.clone(), value: self.value.clone() }
    }
}

impl Declaration {
    /// A declaration with an empty property and an empty identifier as value.
    pub fn new() -> (d: Self)
        ensures
            d@ == (DeclarationModel {
                property: Seq::empty(),
                value: CssTokenModel::Ident(Seq::empty()),
            }),
    {
        Declaration { property: String::new(), value: ComponentValue::Ident(String::new()) }
    }

    pub fn set_property(&mut self, property: String)
        ensures
            final(self)@ == (DeclarationModel { property: property@, ..old(self)@ }),
    {
        self.property = property;
    }

    pub fn set_value(&mut self, value: ComponentValue)
        ensures
            final(self)@ == (DeclarationModel { value: value@, ..old(self)@ }),
    {
        self.value = value;
    }
}

pub open spec fn declarations_model(declarations: Seq<Declaration>) -> Seq<DeclarationModel> {
    declarations.map_values(|d: Declaration| d@)
}

/// A selector with the declarations that apply where it matches.
#[derive(Debug, PartialEq, Eq)]
pub struct QualifiedRule {
    pub selector: Selector,
    pub declarations: Vec<Declaration>,
}

pub struct QualifiedRuleModel {
    pub selector: SelectorModel,
    pub declarations: Seq<DeclarationModel>,
}

impl View for QualifiedRule {
    type V = QualifiedRuleModel;

    open spec fn view(&self) -> QualifiedRuleModel {
        QualifiedRuleModel {
            selector: self.selector@,
            declarations: declarations_model(self.declarations@),
        }
    }
}

impl QualifiedRule {
    /// A rule for the type selector with the empty name, without declarations.
    pub fn new() -> (r: Self)
        ensures
            r@ == (QualifiedRuleModel {
                selector: SelectorModel::TypeSelector(Seq::empty()),
                declarations: Seq::empty(),
            }),
    {
        let r = QualifiedRule {
            selector: Selector::TypeSelector(String::new()),
            declarations: Vec::new(),
        };
        assert(declarations_model(r.declarations@) =~= Seq::empty());
        r
    }

    pub fn set_selector(&mut self, selector: Selector)
        ensures
            final(self)@ == (QualifiedRuleModel { selector: selector@, ..old(self)@ }),
    {
        self.selector = selector;
    }

    pub fn set_declarations(&mut self, declarations: Vec<Declaration>)
        ensures
            final(self)@ == (QualifiedRuleModel {
                declarations: declarations_model(declarations@),
                ..old(self)@
            }),
    {
        self.declarations = declarations;
    }
}

pub open spec fn rules_model(rules: Seq<QualifiedRule>) -> Seq<QualifiedRuleModel> {
    rules.map_values(|r: QualifiedRule| r@)
}

/// The rules of a stylesheet, in the order written.
#[derive(Debug, PartialEq, Eq)]
pub struct StyleSheet {
    pub rules: Vec<QualifiedRule>,
}

pub struct StyleSheetModel {
    pub rules: Seq<QualifiedRuleModel>,
}

impl View for StyleSheet {
    type V = StyleSheetModel;

    open spec fn view(&self) -> StyleSheetModel {
        StyleSheetModel { rules: rules_model(self.rules@) }
    }
}

impl StyleSheet {
    /// A stylesheet without rules.
    pub fn new() -> (s: Self)
        ensures
            s@.rules == Seq::<QualifiedRuleModel>::empty(),
    {
        let s = StyleSheet { rules: Vec::new() };
        assert(rules_model(s.rules@) =~= Seq::empty());
        s
    }

    pub fn set_rules(&mut self, rules: Vec<QualifiedRule>)
        ensures
            final(self)@.rules == rules_model(rules@),
    {
        self.rules = rules;
    }
}

pub open spec fn tokens_model(tokens: Seq<CssToken>) -> Seq<CssTokenModel> {
    tokens.map_values(|t: CssToken| t@)
}

/// The index of the first `{` at or after `p`, or the number of tokens if
/// there is none.
pub open spec fn curly_from(ts: Seq<CssTokenModel>, p: int) -> int
    decreases ts.len() - p,
{
    if 0 <= p < ts.len() && !(ts[p] is OpenCurly) {
        curly_from(ts, p + 1)
    } else {
        p
    }
}

/// Where reading goes on after a token at `p` that selects nothing: behind
/// the token after it, or right behind it where a `{` follows or nothing
/// does. A `{` is never passed over: it starts the block.
pub open spec fn past_unknown(ts: Seq<CssTokenModel>, p: int) -> int {
    if p + 1 < ts.len() && !(ts[p + 1] is OpenCurly) {
        p + 2
    } else {
        p + 1
    }
}

/// Where reading goes on after an identifier at `p` that starts no
/// declaration: behind the token after it, or right behind it where a `;` or
/// a `}` follows or nothing does. What ends a declaration is never passed
/// over.
pub open spec fn past_malformed(ts: Seq<CssTokenModel>, p: int) -> int {
    if p + 1 < ts.len() && is_value(ts[p + 1]) {
        p + 2
    } else {
        p + 1
    }
}

/// The text of a hash token without its first character.
pub open spec fn hash_name(v: Seq<char>) -> Seq<char> {
    if v.len() >= 1 {
        v.subrange(1, v.len() as int)
    } else {
        v
    }
}

/// The selector that the token at `p` starts, with the index of the first
/// token after it.
///
/// A hash token is an id selector. A `.` with an identifier behind it is a
/// class selector. An identifier is a type selector; where a `:` follows it,
/// everything up to the next `{` belongs to it and is dropped. An at-keyword
/// takes everything up to the next `{` and selects nothing. Any other token
/// selects nothing and takes the token after it along, unless that is a `{`.
pub open spec fn selector_at(ts: Seq<CssTokenModel>, p: int) -> (SelectorModel, int) {
    match ts[p] {
        CssTokenModel::HashToken(v) => (SelectorModel::IdSelector(hash_name(v)), p + 1),
        CssTokenModel::Delim(d) => if d == '.' && p + 1 < ts.len() && ts[p + 1] is Ident {
            (SelectorModel::ClassSelector(ts[p + 1]->Ident_0), p + 2)
        } else {
            (SelectorModel::UnknownSelector, past_unknown(ts, p))
        },
        CssTokenModel::Ident(i) => if p + 1 < ts.len() && ts[p + 1] is Colon {
            (SelectorModel::TypeSelector(i), curly_from(ts, p + 1))
        } else {
            (SelectorModel::TypeSelector(i), p + 1)
        },
        CssTokenModel::AtKeyword(_) => (SelectorModel::UnknownSelector, curly_from(ts, p + 1)),
        _ => (SelectorModel::UnknownSelector, past_unknown(ts, p)),
    }
}

/// Whether a token can be the value of a declaration.
pub open spec fn is_value(t: CssTokenModel) -> bool {
    !(t is SemiColon) && !(t is CloseCurly)
}

/// The declarations of the block whose inside starts at `p`, with the index
/// after the closing `}`; `None` where the tokens end before the block does.
///
/// An identifier followed by `:` and a value token is a declaration. An
/// identifier followed by `:` and no value is skipped together with the `:`.
/// An identifier followed by anything else is skipped, together with the
/// token behind it unless that is a `;` or a `}`: the `}` behind a malformed
/// declaration still ends the block. Every other token but `}` is skipped.
pub open spec fn declarations_at(ts: Seq<CssTokenModel>, p: int) -> Option<
    (Seq<DeclarationModel>, int),
>
    decreases ts.len() - p,
{
    if 0 <= p < ts.len() {
        match ts[p] {
            CssTokenModel::CloseCurly => Some((Seq::empty(), p + 1)),
            CssTokenModel::Ident(name) => if p + 1 < ts.len() && ts[p + 1] is Colon {
                if p + 2 < ts.len() && is_value(ts[p + 2]) {
                    push_front(
                        DeclarationModel { property: name, value: ts[p + 2] },
                        declarations_at(ts, p + 3),
                    )
                } else {
                    declarations_at(ts, p + 2)
                }
            } else {
                declarations_at(ts, past_malformed(ts, p))
            },
            _ => declarations_at(ts, p + 1),
        }
    } else {
        None
    }
}

pub open spec fn push_front(
    d: DeclarationModel,
    rest: Option<(Seq<DeclarationModel>, int)>,
) -> Option<(Seq<DeclarationModel>, int)> {
    match rest {
        Some((ds, n)) => Some((seq![d] + ds, n)),
        None => None,
    }
}

/// The rule that is read from `p` on when `selector` is the selector read so
/// far, with the index after its block; `None` where the tokens end before the
/// rule does. Of several selectors before the `{`, the last one counts.
pub open spec fn rule_at(ts: Seq<CssTokenModel>, p: int, selector: SelectorModel) -> Option<
    (QualifiedRuleModel, int),
>
    decreases ts.len() - p,
{
    if 0 <= p < ts.len() {
        if ts[p] is OpenCurly {
            match declarations_at(ts, p + 1) {
                Some((ds, n)) => Some((QualifiedRuleModel { selector, declarations: ds }, n)),
                None => None,
            }
        } else {
            let (s, n) = selector_at(ts, p);
            if p < n <= ts.len() {
                rule_at(ts, n, s)
            } else {
                None
            }
        }
    } else {
        None
    }
}

/// The rules that are read from `p` on. A rule that starts with an at-keyword
/// is read and dropped; a rule that the end of the tokens cuts short ends the
/// list and is not part of it.
pub open spec fn rules_from(ts: Seq<CssTokenModel>, p: int) -> Seq<QualifiedRuleModel>
    decreases ts.len() - p,
{
    if 0 <= p < ts.len() {
        match rule_at(ts, p, SelectorModel::TypeSelector(Seq::empty())) {
            Some((r, n)) => if p < n <= ts.len() {
                if ts[p] is AtKeyword {
                    rules_from(ts, n)
                } else {
                    seq![r] + rules_from(ts, n)
                }
            } else {
                Seq::empty()
            },
            None => Seq::empty(),
        }
    } else {
        Seq::empty()
    }
}

/// The message that reports a character which starts no token.
pub open spec fn unsupported_char_message(c: char) -> Seq<char> {
    "char "@ + seq![c] + " is not supported yet"@
}

/// The stylesheet that a text holds from `pos` on, or the error for the first
/// character in it that starts no token.
pub open spec fn parse_result(input: Seq<char>, pos: int) -> Result<StyleSheetModel, ErrorModel> {
    match tokens_from(input, pos) {
        Ok(ts) => Ok(StyleSheetModel { rules: rules_from(ts, 0) }),
        Err(at) => Err(ErrorModel::UnexpectedInput(unsupported_char_message(input[at]))),
    }
}

/// The model of a list of tokens holds, at each index, the model of the token
/// at that index.
pub proof fn lemma_model_index(tokens: Seq<CssToken>, i: int)
    requires
        0 <= i < tokens.len(),
    ensures
        tokens_model(tokens).len() == tokens.len(),
        tokens_model(tokens)[i] == tokens[i]@,
{
}

proof fn lemma_curly_from(ts: Seq<CssTokenModel>, p: int)
    requires
        0 <= p <= ts.len(),
    ensures
        p <= curly_from(ts, p) <= ts.len(),
    decreases ts.len() - p,
{
    if p < ts.len() && !(ts[p] is OpenCurly) {
        lemma_curly_from(ts, p + 1);
    }
}

/// A selector ends after the token that starts it, within the tokens.
pub proof fn lemma_selector_advances(ts: Seq<CssTokenModel>, p: int)
    requires
        0 <= p < ts.len(),
    ensures
        p < selector_at(ts, p).1 <= ts.len(),
{
    lemma_curly_from(ts, p + 1);
}

/// A block ends after the place where its inside starts, within the tokens.
pub proof fn lemma_declarations_advance(ts: Seq<CssTokenModel>, p: int)
    requires
        0 <= p,
    ensures
        declarations_at(ts, p) is Some ==> p < (declarations_at(ts, p)->0).1 <= ts.len(),
    decreases ts.len() - p,
{
    if p < ts.len() {
        match ts[p] {
            CssTokenModel::CloseCurly => {},
            CssTokenModel::Ident(name) => {
                if p + 1 < ts.len() && ts[p + 1] is Colon {
                    if p + 2 < ts.len() && is_value(ts[p + 2]) {
                        lemma_declarations_advance(ts, p + 3);
                    } else {
                        lemma_declarations_advance(ts, p + 2);
                    }
                } else {
                    lemma_declarations_advance(ts, past_malformed(ts, p));
                }
            },
            _ => {
                lemma_declarations_advance(ts, p + 1);
            },
        }
    }
}

/// A rule ends after the place where it starts, within the tokens.
pub proof fn lemma_rule_advances(ts: Seq<CssTokenModel>, p: int, selector: SelectorModel)
    requires
        0 <= p,
    ensures
        rule_at(ts, p, selector) is Some ==> p < (rule_at(ts, p, selector)->0).1 <= ts.len(),
    decreases ts.len() - p,
{
    if p < ts.len() {
        if ts[p] is OpenCurly {
            lemma_declarations_advance(ts, p + 1);
        } else {
            lemma_selector_advances(ts, p);
            let (s, n) = selector_at(ts, p);
            lemma_rule_advances(ts, n, s);
        }
    }
}

/// A parser over the tokens of a stylesheet.
#[derive(Debug)]
pub struct CssParser {
    t: CssTokenizer,
}

impl View for CssParser {
    type V = CssTokenizerModel;

    closed spec fn view(&self) -> CssTokenizerModel {
        self.t@
    }
}

impl CssParser {
    pub fn new(t: CssTokenizer) -> (p: Self)
        ensures
            p@ == t@,
    {
        Self { t }
    }

    /// Reads the whole stylesheet.
    ///
    /// The result is an error exactly when the text holds a character that
    /// starts no token; otherwise it is the list of the complete rules.
    pub fn parse_stylesheet(&mut self) -> (r: Result<StyleSheet, Error>)
        ensures
            match parse_result(old(self)@.input, old(self)@.pos as int) {
                Ok(sheet) => r is Ok && r->Ok_0@ == sheet,
                Err(e) => r is Err && r->Err_0@ == e,
            },
    {
        match self.collect_tokens() {
            Ok(tokens) => {
                let mut sheet = StyleSheet::new();
                sheet.set_rules(Self::consume_list_of_rules(&tokens));
                Ok(sheet)
            },
            Err(e) => Err(e),
        }
    }

    /// Drains the tokenizer.
    fn collect_tokens(&mut self) -> (r: Result<Vec<CssToken>, Error>)
        ensures
            match tokens_from(old(self)@.input, old(self)@.pos as int) {
                Ok(ts) => r is Ok && tokens_model(r->Ok_0@) == ts,
                Err(at) => r is Err && r->Err_0@ == ErrorModel::UnexpectedInput(
                    unsupported_char_message(old(self)@.input[at]),
                ),
            },
    {
        let mut tokens: Vec<CssToken> = Vec::new();
        let ghost input = self.t@.input;
        let ghost start = self.t@.pos as int;
        assert(tokens_model(tokens@) =~= Seq::empty());
        loop
            invariant
                self.t@.input == input,
                input == old(self)@.input,
                start == old(self)@.pos,
                match tokens_from(input, self.t@.pos as int) {
                    Ok(rest) => tokens_from(input, start) == Ok::<Seq<CssTokenModel>, int>(
                        tokens_model(tokens@) + rest,
                    ),
                    Err(at) => tokens_from(input, start) == Err::<Seq<CssTokenModel>, int>(at),
                },
            decreases input.len() - self.t@.pos,
        {
            let ghost before = self.t@.pos;
            let ghost so_far = tokens_model(tokens@);
            proof {
                if before <= input.len() {
                    lemma_run_end(input, before as int, CharClass::Blank);
                    let q = run_end(input, before as int, CharClass::Blank);
                    if q < input.len() {
                        lemma_token_advances(input, q);
                    }
                }
            }
            match self.t.next() {
                Some(token) => {
                    tokens.push(token);
                    proof {
                        assert(tokens_model(tokens@) =~= so_far.push(token@));
                        match tokens_from(input, self.t@.pos as int) {
                            Ok(rest) => {
                                assert(so_far + (seq![token@] + rest) =~= so_far.push(token@)
                                    + rest);
                            },
                            Err(at) => {},
                        }
                    }
                },
                None => {
                    match self.t.rejected() {
                        Some(c) => {
                            let mut message = String::from_str("char ");
                            message.push(c);
                            message.append(" is not supported yet");
                            proof {
                                let q = run_end(input, before as int, CharClass::Blank);
                                assert(tokens_from(input, before as int) == Err::<
                                    Seq<CssTokenModel>,
                                    int,
                                >(q));
                                assert(message@ =~= unsupported_char_message(input[q]));
                            }
                            return Err(Error::UnexpectedInput(message));
                        },
                        None => {
                            proof {
                                assert(tokens_from(input, before as int) == Ok::<
                                    Seq<CssTokenModel>,
                                    int,
                                >(Seq::empty()));
                                assert(tokens_model(tokens@) + Seq::empty() =~= tokens_model(
                                    tokens@,
                                ));
                            }
                            return Ok(tokens);
                        },
                    }
                },
            }
        }
    }

    fn consume_list_of_rules(tokens: &Vec<CssToken>) -> (rules: Vec<QualifiedRule>)
        ensures
            rules_model(rules@) == rules_from(tokens_model(tokens@), 0),
    {
        let mut rules: Vec<QualifiedRule> = Vec::new();
        let ghost ts = tokens_model(tokens@);
        let mut p: usize = 0;
        assert(rules_model(rules@) =~= Seq::empty());
        while p < tokens.len()
            invariant
                ts == tokens_model(tokens@),
                p <= tokens.len(),
                rules_from(ts, 0) == rules_model(rules@) + rules_from(ts, p as int),
            decreases tokens.len() - p,
        {
            let ghost so_far = rules_model(rules@);
            proof {
                lemma_rule_advances(ts, p as int, SelectorModel::TypeSelector(Seq::empty()));
                lemma_model_index(tokens@, p as int);
            }
            let at_rule = matches!(tokens[p], CssToken::AtKeyword(_));
            match Self::consume_qualified_rule(tokens, p) {
                Some((rule, n)) => {
                    if !at_rule {
                        proof {
                            assert(so_far + (seq![rule@] + rules_from(ts, n as int))
                                =~= so_far.push(rule@) + rules_from(ts, n as int));
                        }
                        rules.push(rule);
                        assert(rules_model(rules@) =~= so_far.push(rule@));
                    }
                    p = n;
                },
                None => {
                    assert(rules_model(rules@) + Seq::empty() =~= rules_model(rules@));
                    return rules;
                },
            }
        }
        assert(rules_model(rules@) + Seq::empty() =~= rules_model(rules@));
        rules
    }

    fn consume_qualified_rule(tokens: &Vec<CssToken>, start: usize) -> (r: Option<
        (QualifiedRule, usize),
    >)
        requires
            start <= tokens.len(),
        ensures
            match rule_at(
                tokens_model(tokens@),
                start as int,
                SelectorModel::TypeSelector(Seq::empty()),
            ) {
                Some((rule, n)) => r is Some && (r->0).0@ == rule && (r->0).1 == n,
                None => r is None,
            },
    {
        let mut rule = QualifiedRule::new();
        let ghost ts = tokens_model(tokens@);
        let ghost goal = rule_at(ts, start as int, SelectorModel::TypeSelector(Seq::empty()));
        let mut p: usize = start;
        while p < tokens.len()
            invariant
                ts == tokens_model(tokens@),
                start <= p <= tokens.len(),
                rule@.declarations == Seq::<DeclarationModel>::empty(),
                rule_at(ts, p as int, rule@.selector) == goal,
                goal == rule_at(ts, start as int, SelectorModel::TypeSelector(Seq::empty())),
            decreases tokens.len() - p,
        {
            proof {
                lemma_model_index(tokens@, p as int);
            }
            if matches!(tokens[p], CssToken::OpenCurly) {
                proof {
                    lemma_declarations_advance(ts, p + 1);
                }
                let ghost selector = rule@.selector;
                assert(ts[p as int] is OpenCurly);
                match Self::consume_list_of_declarations(tokens, p + 1) {
                    Some((declarations, n)) => {
                        rule.set_declarations(declarations);
                        assert(rule@.selector == selector);
                        return Some((rule, n));
                    },
                    None => {
                        return None;
                    },
                }
            } else {
                proof {
                    lemma_selector_advances(ts, p as int);
                }
                let (selector, n) = Self::consume_selector(tokens, p);
                rule.set_selector(selector);
                p = n;
            }
        }
        None
    }

    fn consume_selector(tokens: &Vec<CssToken>, p: usize) -> (r: (Selector, usize))
        requires
            p < tokens.len(),
        ensures
            r.0@ == selector_at(tokens_model(tokens@), p as int).0,
            r.1 == selector_at(tokens_model(tokens@), p as int).1,
    {
        let ghost ts = tokens_model(tokens@);
        proof {
            lemma_model_index(tokens@, p as int);
            if p + 1 < tokens.len() {
                lemma_model_index(tokens@, p + 1);
            }
        }
        match &tokens[p] {
            CssToken::HashToken(value) => {
                let chars = chars_of(value.as_str());
                let name = if chars.len() >= 1 {
                    string_of_range(&chars, 1, chars.len())
                } else {
                    value.clone()
                };
                (Selector::IdSelector(name), p + 1)
            },
            CssToken::Delim(delim) => {
                if *delim == '.' && p + 1 < tokens.len() {
                    match &tokens[p + 1] {
                        CssToken::Ident(ident) => {
                            return (Selector::ClassSelector(ident.clone()), p + 2);
                        },
                        _ => {},
                    }
                }
                (Selector::UnknownSelector, Self::skip_unknown(tokens, p))
            },
            CssToken::Ident(ident) => {
                if p + 1 < tokens.len() && matches!(tokens[p + 1], CssToken::Colon) {
                    (Selector::TypeSelector(ident.clone()), Self::skip_to_curly(tokens, p + 1))
                } else {
                    (Selector::TypeSelector(ident.clone()), p + 1)
                }
            },
            CssToken::AtKeyword(_keyword) => (
                Selector::UnknownSelector,
                Self::skip_to_curly(tokens, p + 1),
            ),
            _ => (Selector::UnknownSelector, Self::skip_unknown(tokens, p)),
        }
    }

    fn skip_unknown(tokens: &Vec<CssToken>, p: usize) -> (n: usize)
        requires
            p < tokens.len(),
        ensures
            n == past_unknown(tokens_model(tokens@), p as int),
            p < n <= tokens.len(),
    {
        if p + 1 < tokens.len() {
            proof {
                lemma_model_index(tokens@, p + 1);
            }
            if !matches!(tokens[p + 1], CssToken::OpenCurly) {
                return p + 2;
            }
        }
        p + 1
    }

    fn skip_to_curly(tokens: &Vec<CssToken>, from: usize) -> (n: usize)
        requires
            from <= tokens.len(),
        ensures
            n == curly_from(tokens_model(tokens@), from as int),
            from <= n <= tokens.len(),
    {
        let mut p: usize = from;
        while p < tokens.len() && !matches!(tokens[p], CssToken::OpenCurly)
            invariant
                from <= p <= tokens.len(),
                curly_from(tokens_model(tokens@), from as int) == curly_from(
                    tokens_model(tokens@),
                    p as int,
                ),
            decreases tokens.len() - p,
        {
            proof {
                lemma_model_index(tokens@, p as int);
            }
            p += 1;
        }
        proof {
            if p < tokens.len() {
                lemma_model_index(tokens@, p as int);
            }
        }
        p
    }

    fn consume_list_of_declarations(tokens: &Vec<CssToken>, start: usize) -> (r: Option<
        (Vec<Declaration>, usize),
    >)
        requires
            start <= tokens.len(),
        ensures
            match declarations_at(tokens_model(tokens@), start as int) {
                Some((ds, n)) => r is Some && declarations_model((r->0).0@) == ds && (r->0).1
                    == n,
                None => r is None,
            },
    {
        let mut declarations: Vec<Declaration> = Vec::new();
        let ghost ts = tokens_model(tokens@);
        let ghost goal = declarations_at(ts, start as int);
        let mut p: usize = start;
        assert(declarations_model(declarations@) =~= Seq::empty());
        while p < tokens.len()
            invariant
                ts == tokens_model(tokens@),
                start <= p <= tokens.len(),
                goal == declarations_at(ts, start as int),
                goal == match declarations_at(ts, p as int) {
                    Some((ds, n)) => Some((declarations_model(declarations@) + ds, n)),
                    None => None,
                },
            decreases tokens.len() - p,
        {
            let ghost so_far = declarations_model(declarations@);
            proof {
                lemma_model_index(tokens@, p as int);
            }
            match &tokens[p] {
                CssToken::CloseCurly => {
                    proof {
                        assert(ts[p as int] is CloseCurly);
                        assert(declarations_at(ts, p as int) == Some(
                            (Seq::<DeclarationModel>::empty(), p + 1),
                        ));
                        assert(so_far + Seq::empty() =~= so_far);
                    }
                    return Some((declarations, p + 1));
                },
                CssToken::Ident(_ident) => {
                    let (declaration, n) = Self::consume_declaration(tokens, p);
                    match declaration {
                        Some(d) => {
                            proof {
                                match declarations_at(ts, n as int) {
                                    Some((ds, m)) => {
                                        assert(so_far + (seq![d@] + ds) =~= so_far.push(d@) + ds);
                                    },
                                    None => {},
                                }
                            }
                            declarations.push(d);
                            assert(declarations_model(declarations@) =~= so_far.push(d@));
                        },
                        None => {},
                    }
                    p = n;
                },
                _ => {
                    p += 1;
                },
            }
        }
        None
    }

    /// Reads the declaration that the identifier at `p` starts. The second
    /// part of the result is the index at which reading goes on.
    fn consume_declaration(tokens: &Vec<CssToken>, p: usize) -> (r: (Option<Declaration>, usize))
        requires
            p < tokens.len(),
            tokens[p as int] is Ident,
        ensures
            ({
                let ts = tokens_model(tokens@);
                if p + 1 < ts.len() && ts[p + 1] is Colon {
                    if p + 2 < ts.len() && is_value(ts[p + 2]) {
                        r.0 is Some && r.0->0@ == (DeclarationModel {
                            property: ts[p as int]->Ident_0,
                            value: ts[p + 2],
                        }) && r.1 == p + 3
                    } else {
                        r.0 is None && r.1 == p + 2
                    }
                } else {
                    r.0 is None && r.1 == past_malformed(ts, p as int)
                }
            }),
            p < r.1 <= tokens.len(),
    {
        let property = Self::consume_ident(tokens, p);
        proof {
            lemma_model_index(tokens@, p as int);
            if p + 1 < tokens.len() {
                lemma_model_index(tokens@, p + 1);
            }
            if p + 2 < tokens.len() {
                lemma_model_index(tokens@, p + 2);
            }
        }
        if p + 1 >= tokens.len() {
            return (None, p + 1);
        }
        if !matches!(tokens[p + 1], CssToken::Colon) {
            return match Self::consume_component_value(tokens, p + 1) {
                Some(_) => (None, p + 2),
                None => (None, p + 1),
            };
        }
        if p + 2 >= tokens.len() {
            return (None, p + 2);
        }
        match Self::consume_component_value(tokens, p + 2) {
            Some(value) => {
                let mut declaration = Declaration::new();
                declaration.set_property(property);
                declaration.set_value(value);
                (Some(declaration), p + 3)
            },
            None => (None, p + 2),
        }
    }

    fn consume_ident(tokens: &Vec<CssToken>, p: usize) -> (r: String)
        requires
            p < tokens.len(),
            tokens[p as int] is Ident,
        ensures
            r@ == tokens_model(tokens@)[p as int]->Ident_0,
    {
        proof {
            lemma_model_index(tokens@, p as int);
        }
        match &tokens[p] {
            CssToken::Ident(ident) => ident.clone(),
            _ => String::new(),
        }
    }

    fn consume_component_value(tokens: &Vec<CssToken>, p: usize) -> (r: Option<ComponentValue>)
        requires
            p < tokens.len(),
        ensures
            ({
                let t = tokens_model(tokens@)[p as int];
                if is_value(t) {
                    r is Some && r->0@ == t
                } else {
                    r is None
                }
            }),
    {
        proof {
            lemma_model_index(tokens@, p as int);
        }
        match &tokens[p] {
            CssToken::SemiColon => None,
            CssToken::CloseCurly => None,
            t => Some(t.clone()),
        }
    }
}

} // verus!
