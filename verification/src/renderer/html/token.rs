//! The markup tokenizer: a state machine over the characters of a document.
//!
//! The machine reads one character at a time. A state that finds that the
//! character belongs to another state hands it over: the character is read
//! again, in the new state, without moving forward. Past the last character
//! the machine reads the end of the input, once.

use crate::renderer::html::attribute::{
    attributes_model, clone_attributes, Attribute, AttributeModel,
};
use crate::text::{
    chars_of, is_ascii_alphabetic, spec_is_ascii_alphabetic, spec_to_ascii_lowercase, str_is,
    to_ascii_lowercase,
};
use vstd::prelude::*;

verus! {

/// One lexical unit of a document.
#[derive(Debug, PartialEq, Eq)]
pub enum HtmlToken {
    StartTag { tag: String, self_closing: bool, attributes: Vec<Attribute> },
    EndTag { tag: String },
    Char(char),
    Eof,
}

pub enum HtmlTokenModel {
    StartTag { tag: Seq<char>, self_closing: bool, attributes: Seq<AttributeModel> },
    EndTag { tag: Seq<char> },
    Char(char),
    Eof,
}

impl View for HtmlToken {
    type V = HtmlTokenModel;

    open spec fn view(&self) -> HtmlTokenModel {
        match self {
            HtmlToken::StartTag { tag, self_closing, attributes } => HtmlTokenModel::StartTag {
                tag: tag@,
                self_closing: *self_closing,
                attributes: attributes_model(attributes@),
            },
            HtmlToken::EndTag { tag } => HtmlTokenModel::EndTag { tag: tag@ },
            HtmlToken::Char(c) => HtmlTokenModel::Char(*c),
            HtmlToken::Eof => HtmlTokenModel::Eof,
        }
    }
}

impl Clone for HtmlToken {
    fn clone(&self) -> (r: Self)
        ensures
            r@ == self@,
    {
        match self {
            HtmlToken::StartTag { tag, self_closing, attributes } => HtmlToken::StartTag {
                tag: tag.clone(),
                self_closing: *self_closing,
                attributes: clone_attributes(attributes),
            },
            HtmlToken::EndTag { tag } => HtmlToken::EndTag { tag: tag.clone() },
            HtmlToken::Char(c) => HtmlToken::Char(*c),
            HtmlToken::Eof => HtmlToken::Eof,
        }
    }
}

/// The model of a token that may not be there.
pub open spec fn token_model(token: Option<HtmlToken>) -> Option<HtmlTokenModel> {
    match token {
        Some(t) => Some(t@),
        None => None,
    }
}

/// The states of the machine.
#[derive(Debug, Clone, Copy, PartialEq, Eq, Structural)]
pub enum State {
    Data,
    TagOpen,
    EndTagOpen,
    TagName,
    BeforeAttributeName,
    AttributeName,
    AfterAttributeName,
    BeforeAttributeValue,
    AttributeValueDoubleQuoted,
    AttributeValueSingleQuoted,
    AttributeValueUnquoted,
    AfterAttributeValueQuoted,
    SelfClosingStartTag,
    ScriptData,
    ScriptDataLessThanSign,
    ScriptDataEndTagOpen,
    ScriptDataEndTagName,
}

/// A scanner over the text of a document. It moves forward only.
#[derive(Debug, PartialEq, Eq)]
pub struct HtmlTokenizer {
    state: State,
    pos: usize,
    eof: bool,
    reconsume: bool,
    latest_token: Option<HtmlToken>,
    input: Vec<char>,
    buf: Vec<char>,
}

/// What the machine holds: its state, how many characters it has read,
/// whether the last of them is to be read again, the tag that it is
/// building, the text, and the characters that it has kept back while it
/// looked for the end of raw text.
pub struct HtmlTokenizerModel {
    pub state: State,
    pub pos: nat,
    pub reconsume: bool,
    pub latest_token: Option<HtmlTokenModel>,
    pub input: Seq<char>,
    pub buf: Seq<char>,
}

impl View for HtmlTokenizer {
    type V = HtmlTokenizerModel;

    closed spec fn view(&self) -> HtmlTokenizerModel {
        HtmlTokenizerModel {
            state: self.state,
            pos: if self.eof {
                (if self.pos >= self.input.len() {
                    self.pos as nat
                } else {
                    self.input@.len()
                }) + 1
            } else {
                self.pos as nat
            },
            reconsume: self.reconsume,
            latest_token: token_model(self.latest_token),
            input: self.input@,
            buf: self.buf@,
        }
    }
}

/// What one move of the machine gives: the machine after it, and the token
/// that the move has emitted, if any.
pub type Step = (HtmlTokenizerModel, Option<HtmlTokenModel>);

/// The characters that separate the parts of a tag.
pub open spec fn is_tag_space(c: char) -> bool {
    c == ' ' || c == '\n' || c == '\t' || c == '\r' || c == '\x0c'
}

/// The tag with one more character at the end of its name.
pub open spec fn with_tag_char(token: Option<HtmlTokenModel>, c: char) -> Option<HtmlTokenModel> {
    match token {
        Some(HtmlTokenModel::StartTag { tag, self_closing, attributes }) => Some(
            HtmlTokenModel::StartTag { tag: tag.push(c), self_closing, attributes },
        ),
        Some(HtmlTokenModel::EndTag { tag }) => Some(HtmlTokenModel::EndTag { tag: tag.push(c) }),
        other => other,
    }
}

/// The start tag with one more attribute, which is empty. Another token is
/// left as it is.
pub open spec fn with_new_attribute(token: Option<HtmlTokenModel>) -> Option<HtmlTokenModel> {
    match token {
        Some(HtmlTokenModel::StartTag { tag, self_closing, attributes }) => Some(
            HtmlTokenModel::StartTag {
                tag,
                self_closing,
                attributes: attributes.push(
                    AttributeModel { name: Seq::empty(), value: Seq::empty() },
                ),
            },
        ),
        other => other,
    }
}

/// The start tag with one more character at the end of the name or of the
/// value of its last attribute. Another token, and a tag without attributes,
/// is left as it is.
pub open spec fn with_attribute_char(
    token: Option<HtmlTokenModel>,
    c: char,
    is_name: bool,
) -> Option<HtmlTokenModel> {
    match token {
        Some(HtmlTokenModel::StartTag { tag, self_closing, attributes }) => if attributes.len()
            > 0 {
            let last = attributes.last();
            Some(
                HtmlTokenModel::StartTag {
                    tag,
                    self_closing,
                    attributes: attributes.drop_last().push(
                        if is_name {
                            AttributeModel { name: last.name.push(c), value: last.value }
                        } else {
                            AttributeModel { name: last.name, value: last.value.push(c) }
                        },
                    ),
                },
            )
        } else {
            token
        },
        other => other,
    }
}

/// The start tag marked as closing itself. Another token is left as it is.
pub open spec fn with_self_closing(token: Option<HtmlTokenModel>) -> Option<HtmlTokenModel> {
    match token {
        Some(HtmlTokenModel::StartTag { tag, self_closing, attributes }) => Some(
            HtmlTokenModel::StartTag { tag, self_closing: true, attributes },
        ),
        other => other,
    }
}

/// The state in which the machine goes on after a tag: raw text after the
/// start of a `script` element, markup after every other tag.
pub open spec fn state_after(token: HtmlTokenModel) -> State {
    match token {
        HtmlTokenModel::StartTag { tag, self_closing, attributes } => if tag == "script"@
            && !self_closing {
            State::ScriptData
        } else {
            State::Data
        },
        _ => State::Data,
    }
}

impl HtmlTokenizerModel {
    /// The machine at the start of a text, in the state for markup.
    pub open spec fn start(input: Seq<char>) -> HtmlTokenizerModel {
        HtmlTokenizerModel {
            state: State::Data,
            pos: 0,
            reconsume: false,
            latest_token: None,
            input,
            buf: Seq::empty(),
        }
    }

    /// The machine in another state.
    pub open spec fn go(self, state: State) -> Step {
        (HtmlTokenizerModel { state, ..self }, None)
    }

    /// The machine in another state, about to read the last character again.
    pub open spec fn again(self, state: State) -> Step {
        (HtmlTokenizerModel { state, reconsume: true, ..self }, None)
    }

    /// The machine after it has emitted the tag that it was building.
    pub open spec fn emit_tag(self) -> Step {
        match self.latest_token {
            Some(t) => (
                HtmlTokenizerModel { state: state_after(t), latest_token: None, ..self },
                Some(t),
            ),
            None => (HtmlTokenizerModel { state: State::Data, ..self }, None),
        }
    }

    /// The machine with a new, empty tag to build.
    pub open spec fn create_tag(self, start_tag_token: bool) -> HtmlTokenizerModel {
        HtmlTokenizerModel {
            latest_token: Some(
                if start_tag_token {
                    HtmlTokenModel::StartTag {
                        tag: Seq::empty(),
                        self_closing: false,
                        attributes: Seq::empty(),
                    }
                } else {
                    HtmlTokenModel::EndTag { tag: Seq::empty() }
                },
            ),
            ..self
        }
    }

    /// The character that the next move reads; `None` at the end of the
    /// input.
    pub open spec fn current(self) -> Option<char> {
        if self.reconsume {
            if 0 < self.pos <= self.input.len() {
                Some(self.input[self.pos - 1])
            } else {
                None
            }
        } else {
            if self.pos < self.input.len() {
                Some(self.input[self.pos as int])
            } else {
                None
            }
        }
    }

    /// The machine after it has read a character.
    pub open spec fn advanced(self) -> HtmlTokenizerModel {
        if self.reconsume {
            HtmlTokenizerModel { reconsume: false, ..self }
        } else {
            HtmlTokenizerModel { pos: self.pos + 1, ..self }
        }
    }

    /// What the machine does with the character `c`, or with the end of the
    /// input, in the state that it is in.
    pub open spec fn handle(self, c: Option<char>) -> Step {
        match self.state {
            State::Data => match c {
                None => (self, Some(HtmlTokenModel::Eof)),
                Some(c) => if c == '<' {
                    self.go(State::TagOpen)
                } else {
                    (self, Some(HtmlTokenModel::Char(c)))
                },
            },
            State::TagOpen => match c {
                None => (self, Some(HtmlTokenModel::Eof)),
                Some(c) => if c == '/' {
                    self.go(State::EndTagOpen)
                } else if spec_is_ascii_alphabetic(c) {
                    self.create_tag(true).again(State::TagName)
                } else {
                    self.again(State::Data)
                },
            },
            State::EndTagOpen => match c {
                None => (self, Some(HtmlTokenModel::Eof)),
                Some(c) => if spec_is_ascii_alphabetic(c) {
                    self.create_tag(false).again(State::TagName)
                } else {
                    (self, None)
                },
            },
            State::TagName => match c {
                None => (self, Some(HtmlTokenModel::Eof)),
                Some(c) => if is_tag_space(c) {
                    self.go(State::BeforeAttributeName)
                } else if c == '/' {
                    self.go(State::SelfClosingStartTag)
                } else if c == '>' {
                    self.emit_tag()
                } else {
                    (
                        HtmlTokenizerModel {
                            latest_token: with_tag_char(
                                self.latest_token,
                                spec_to_ascii_lowercase(c),
                            ),
                            ..self
                        },
                        None,
                    )
                },
            },
            State::BeforeAttributeName => match c {
                None => self.again(State::AfterAttributeName),
                Some(c) => if is_tag_space(c) {
                    (self, None)
                } else if c == '/' || c == '>' {
                    self.again(State::AfterAttributeName)
                } else {
                    HtmlTokenizerModel {
                        latest_token: with_new_attribute(self.latest_token),
                        ..self
                    }.again(State::AttributeName)
                },
            },
            State::AttributeName => match c {
                None => self.again(State::AfterAttributeName),
                Some(c) => if is_tag_space(c) || c == '/' || c == '>' {
                    self.again(State::AfterAttributeName)
                } else if c == '=' {
                    self.go(State::BeforeAttributeValue)
                } else {
                    (
                        HtmlTokenizerModel {
                            latest_token: with_attribute_char(
                                self.latest_token,
                                spec_to_ascii_lowercase(c),
                                true,
                            ),
                            ..self
                        },
                        None,
                    )
                },
            },
            State::AfterAttributeName => match c {
                None => (self, Some(HtmlTokenModel::Eof)),
                Some(c) => if is_tag_space(c) {
                    (self, None)
                } else if c == '/' {
                    self.go(State::SelfClosingStartTag)
                } else if c == '=' {
                    self.go(State::BeforeAttributeValue)
                } else if c == '>' {
                    self.emit_tag()
                } else {
                    HtmlTokenizerModel {
                        latest_token: with_new_attribute(self.latest_token),
                        ..self
                    }.again(State::AttributeName)
                },
            },
            State::BeforeAttributeValue => match c {
                None => self.again(State::AttributeValueUnquoted),
                Some(c) => if is_tag_space(c) {
                    (self, None)
                } else if c == '"' {
                    self.go(State::AttributeValueDoubleQuoted)
                } else if c == '\'' {
                    self.go(State::AttributeValueSingleQuoted)
                } else {
                    self.again(State::AttributeValueUnquoted)
                },
            },
            State::AttributeValueDoubleQuoted => match c {
                None => (self, Some(HtmlTokenModel::Eof)),
                Some(c) => if c == '"' {
                    self.go(State::AfterAttributeValueQuoted)
                } else {
                    (
                        HtmlTokenizerModel {
                            latest_token: with_attribute_char(self.latest_token, c, false),
                            ..self
                        },
                        None,
                    )
                },
            },
            State::AttributeValueSingleQuoted => match c {
                None => (self, Some(HtmlTokenModel::Eof)),
                Some(c) => if c == '\'' {
                    self.go(State::AfterAttributeValueQuoted)
                } else {
                    (
                        HtmlTokenizerModel {
                            latest_token: with_attribute_char(self.latest_token, c, false),
                            ..self
                        },
                        None,
                    )
                },
            },
            State::AttributeValueUnquoted => match c {
                None => (self, Some(HtmlTokenModel::Eof)),
                Some(c) => if is_tag_space(c) {
                    self.go(State::BeforeAttributeName)
                } else if c == '>' {
                    self.emit_tag()
                } else {
                    (
                        HtmlTokenizerModel {
                            latest_token: with_attribute_char(self.latest_token, c, false),
                            ..self
                        },
                        None,
                    )
                },
            },
            State::AfterAttributeValueQuoted => match c {
                None => (self, Some(HtmlTokenModel::Eof)),
                Some(c) => if is_tag_space(c) {
                    self.go(State::BeforeAttributeName)
                } else if c == '/' {
                    self.go(State::SelfClosingStartTag)
                } else if c == '>' {
                    self.emit_tag()
                } else {
                    self.again(State::BeforeAttributeName)
                },
            },
            State::SelfClosingStartTag => match c {
                None => (self, Some(HtmlTokenModel::Eof)),
                Some(c) => if c == '>' {
                    HtmlTokenizerModel {
                        latest_token: with_self_closing(self.latest_token),
                        ..self
                    }.emit_tag()
                } else {
                    (self, None)
                },
            },
            State::ScriptData => match c {
                None => (self, Some(HtmlTokenModel::Eof)),
                Some(c) => if c == '<' {
                    self.go(State::ScriptDataLessThanSign)
                } else {
                    (self, Some(HtmlTokenModel::Char(c)))
                },
            },
            State::ScriptDataLessThanSign => if c == Some('/') {
                HtmlTokenizerModel { buf: Seq::empty(), ..self }.go(State::ScriptDataEndTagOpen)
            } else {
                (
                    HtmlTokenizerModel { state: State::ScriptData, reconsume: true, ..self },
                    Some(HtmlTokenModel::Char('<')),
                )
            },
            State::ScriptDataEndTagOpen => if c is Some && spec_is_ascii_alphabetic(c->0) {
                self.create_tag(false).again(State::ScriptDataEndTagName)
            } else {
                (
                    HtmlTokenizerModel {
                        state: State::ScriptData,
                        reconsume: true,
                        buf: seq!['/'],
                        ..self
                    },
                    Some(HtmlTokenModel::Char('<')),
                )
            },
            State::ScriptDataEndTagName => if c == Some('>') {
                self.emit_tag()
            } else if c is Some && spec_is_ascii_alphabetic(c->0) {
                (
                    HtmlTokenizerModel {
                        buf: self.buf.push(c->0),
                        latest_token: with_tag_char(
                            self.latest_token,
                            spec_to_ascii_lowercase(c->0),
                        ),
                        ..self
                    },
                    None,
                )
            } else {
                (
                    HtmlTokenizerModel {
                        state: State::ScriptData,
                        reconsume: true,
                        buf: seq!['/'] + self.buf,
                        latest_token: None,
                        ..self
                    },
                    Some(HtmlTokenModel::Char('<')),
                )
            },
        }
    }

    /// One move of the machine. In raw text, characters that were kept back
    /// are emitted before anything is read.
    pub open spec fn step(self) -> Step {
        if self.state == State::ScriptData && self.buf.len() > 0 {
            (
                HtmlTokenizerModel { buf: self.buf.drop_first(), ..self },
                Some(HtmlTokenModel::Char(self.buf[0])),
            )
        } else {
            self.advanced().handle(self.current())
        }
    }

    /// How many characters, the end of the input counted as one, the machine
    /// has still to deal with.
    pub open spec fn remaining(self) -> nat {
        (if self.pos <= self.input.len() {
            self.input.len() + 1 - self.pos
        } else {
            0
        }) as nat + if self.reconsume {
            1nat
        } else {
            0nat
        }
    }

    /// How many times, at most, the machine can hand on the character that
    /// it reads next.
    pub open spec fn rank(self) -> nat {
        let hands_to_after = match self.current() {
            None => true,
            Some(c) => is_tag_space(c) || c == '/' || c == '>',
        };
        match self.state {
            State::AfterAttributeValueQuoted => 4,
            State::BeforeAttributeName => 3,
            State::AttributeName => if hands_to_after {
                2
            } else {
                0
            },
            State::AfterAttributeName => 1,
            State::TagOpen => 2,
            State::EndTagOpen => 1,
            State::BeforeAttributeValue => 1,
            State::ScriptDataEndTagOpen => 3,
            State::ScriptDataEndTagName => 2,
            State::ScriptDataLessThanSign => 1,
            _ => 0,
        }
    }

    /// A number that every move without a token makes smaller.
    pub open spec fn measure(self) -> nat {
        5 * self.remaining() + self.rank()
    }

    /// Whether the machine has not read past the end of the input, or is
    /// about to read that end again.
    pub open spec fn live(self) -> bool {
        self.pos <= self.input.len() || (self.pos == self.input.len() + 1 && self.reconsume)
    }

    /// The moves of the machine up to the first that emits a token.
    pub open spec fn run(self) -> Step
        decreases self.measure(),
    {
        let (after, token) = self.step();
        if token is None && after.measure() < self.measure() {
            after.run()
        } else {
            (after, token)
        }
    }

    /// What asking for the next token gives: nothing, once every character
    /// has been read, else the first token that the machine emits.
    pub open spec fn next(self) -> Step {
        if self.pos >= self.input.len() {
            (self, None)
        } else {
            self.run()
        }
    }

    /// The tokens that the machine yields until it yields none.
    pub open spec fn tokens(self) -> Seq<HtmlTokenModel>
        decreases self.measure(), self.buf.len(),
    {
        let (after, token) = self.next();
        match token {
            None => Seq::empty(),
            Some(t) => if after.measure() < self.measure() || (after.measure() == self.measure()
                && after.buf.len() < self.buf.len()) {
                seq![t] + after.tokens()
            } else {
                seq![t]
            },
        }
    }
}

/// A move of a live machine that emits no token leaves the machine live and
/// makes the measure smaller. A move that emits one does not make the measure
/// greater, and where it leaves it the same, fewer characters are kept back.
pub proof fn lemma_step(m: HtmlTokenizerModel)
    requires
        m.live(),
    ensures
        m.step().1 is None ==> m.step().0.live(),
        m.step().0.input == m.input,
        m.step().1 is None ==> m.step().0.measure() < m.measure(),
        m.step().1 is Some ==> m.step().0.measure() < m.measure() || (m.step().0.measure()
            == m.measure() && m.step().0.buf.len() < m.buf.len()),
{
}

/// The run of a live machine ends with a token, and with a smaller measure
/// or, at the same measure, fewer characters kept back.
pub proof fn lemma_run(m: HtmlTokenizerModel)
    requires
        m.live(),
    ensures
        m.run().1 is Some,
        m.run().0.input == m.input,
        m.run().0.measure() < m.measure() || (m.run().0.measure() == m.measure()
            && m.run().0.buf.len() < m.buf.len()),
    decreases m.measure(),
{
    lemma_step(m);
    if m.step().1 is None {
        lemma_run(m.step().0);
    }
}

impl HtmlTokenizer {
    /// A machine at the start of the text, in the state for markup.
    pub fn new(html: String) -> (t: Self)
        ensures
            t@ == HtmlTokenizerModel::start(html@),
    {
        Self {
            state: State::Data,
            pos: 0,
            eof: false,
            reconsume: false,
            latest_token: None,
            input: chars_of(html.as_str()),
            buf: Vec::new(),
        }
    }

    /// Whether the end of the input has been read.
    pub fn is_eof(&self) -> (r: bool)
        ensures
            r == (self@.pos > self@.input.len()),
    {
        self.eof || self.pos > self.input.len()
    }

    /// Reads the next character, or the last one again where it was handed
    /// on; `None` at the end of the input.
    fn consume_next_input(&mut self) -> (c: Option<char>)
        requires
            old(self)@.live(),
        ensures
            final(self)@ == old(self)@.advanced(),
            c == old(self)@.current(),
    {
        if self.reconsume {
            self.reconsume = false;
            if !self.eof && 0 < self.pos && self.pos <= self.input.len() {
                Some(self.input[self.pos - 1])
            } else {
                None
            }
        } else if self.pos < self.input.len() {
            let c = self.input[self.pos];
            self.pos += 1;
            Some(c)
        } else {
            self.eof = true;
            None
        }
    }

    fn create_tag(&mut self, start_tag_token: bool)
        ensures
            final(self)@ == old(self)@.create_tag(start_tag_token),
    {
        if start_tag_token {
            let token = HtmlToken::StartTag {
                tag: String::new(),
                self_closing: false,
                attributes: Vec::new(),
            };
            assert(token@ == (HtmlTokenModel::StartTag {
                tag: Seq::empty(),
                self_closing: false,
                attributes: Seq::empty(),
            })) by {
                assert(attributes_model(Seq::<Attribute>::empty()) =~= Seq::empty());
            }
            self.latest_token = Some(token);
        } else {
            self.latest_token = Some(HtmlToken::EndTag { tag: String::new() });
        }
    }

    fn append_tag_name(&mut self, c: char)
        ensures
            final(self)@ == (HtmlTokenizerModel {
                latest_token: with_tag_char(old(self)@.latest_token, c),
                ..old(self)@
            }),
    {
        match self.latest_token.take() {
            Some(HtmlToken::StartTag { mut tag, self_closing, attributes }) => {
                tag.push(c);
                self.latest_token = Some(HtmlToken::StartTag { tag, self_closing, attributes });
            },
            Some(HtmlToken::EndTag { mut tag }) => {
                tag.push(c);
                self.latest_token = Some(HtmlToken::EndTag { tag });
            },
            other => {
                self.latest_token = other;
            },
        }
    }

    fn start_new_attribute(&mut self)
        ensures
            final(self)@ == (HtmlTokenizerModel {
                latest_token: with_new_attribute(old(self)@.latest_token),
                ..old(self)@
            }),
    {
        match self.latest_token.take() {
            Some(HtmlToken::StartTag { tag, self_closing, mut attributes }) => {
                let ghost before = attributes_model(attributes@);
                let attribute = Attribute::new();
                attributes.push(attribute);
                assert(attributes_model(attributes@) =~= before.push(
                    AttributeModel { name: Seq::empty(), value: Seq::empty() },
                ));
                self.latest_token = Some(HtmlToken::StartTag { tag, self_closing, attributes });
            },
            other => {
                self.latest_token = other;
            },
        }
    }

    fn append_attribute(&mut self, c: char, is_name: bool)
        ensures
            final(self)@ == (HtmlTokenizerModel {
                latest_token: with_attribute_char(old(self)@.latest_token, c, is_name),
                ..old(self)@
            }),
    {
        match self.latest_token.take() {
            Some(HtmlToken::StartTag { tag, self_closing, mut attributes }) => {
                let ghost before = attributes_model(attributes@);
                match attributes.pop() {
                    Some(mut attribute) => {
                        let ghost rest = attributes_model(attributes@);
                        assert(rest =~= before.drop_last());
                        assert(attribute@ == before.last());
                        attribute.add_char(c, is_name);
                        attributes.push(attribute);
                        assert(attributes_model(attributes@) =~= rest.push(attribute@));
                    },
                    None => {
                        assert(attributes_model(attributes@) =~= before);
                    },
                }
                self.latest_token = Some(HtmlToken::StartTag { tag, self_closing, attributes });
            },
            other => {
                self.latest_token = other;
            },
        }
    }

    fn set_self_closing_flag(&mut self)
        ensures
            final(self)@ == (HtmlTokenizerModel {
                latest_token: with_self_closing(old(self)@.latest_token),
                ..old(self)@
            }),
    {
        match self.latest_token.take() {
            Some(HtmlToken::StartTag { tag, self_closing, attributes }) => {
                self.latest_token = Some(
                    HtmlToken::StartTag { tag, self_closing: true, attributes },
                );
            },
            other => {
                self.latest_token = other;
            },
        }
    }

    /// Hands out the tag that was built, and sets the state for what follows
    /// it.
    fn take_latest_token(&mut self) -> (r: Option<HtmlToken>)
        ensures
            (final(self)@, token_model(r)) == old(self)@.emit_tag(),
    {
        let token = self.latest_token.take();
        self.state = State::Data;
        match &token {
            Some(HtmlToken::StartTag { tag, self_closing, attributes }) => {
                if str_is(tag, "script") && !*self_closing {
                    self.state = State::ScriptData;
                }
            },
            _ => {},
        }
        token
    }

    fn tag_space(c: char) -> (r: bool)
        ensures
            r == is_tag_space(c),
    {
        c == ' ' || c == '\n' || c == '\t' || c == '\r' || c == '\x0c'
    }

    /// Deals with one character, or with the end of the input.
    fn handle(&mut self, c: Option<char>) -> (r: Option<HtmlToken>)
        ensures
            (final(self)@, token_model(r)) == old(self)@.handle(c),
    {
        match self.state {
            State::Data => match c {
                None => Some(HtmlToken::Eof),
                Some(c) => {
                    if c == '<' {
                        self.state = State::TagOpen;
                        None
                    } else {
                        Some(HtmlToken::Char(c))
                    }
                },
            },
            State::TagOpen => match c {
                None => Some(HtmlToken::Eof),
                Some(c) => {
                    if c == '/' {
                        self.state = State::EndTagOpen;
                    } else if is_ascii_alphabetic(c) {
                        self.reconsume = true;
                        self.state = State::TagName;
                        self.create_tag(true);
                    } else {
                        self.reconsume = true;
                        self.state = State::Data;
                    }
                    None
                },
            },
            State::EndTagOpen => match c {
                None => Some(HtmlToken::Eof),
                Some(c) => {
                    if is_ascii_alphabetic(c) {
                        self.reconsume = true;
                        self.state = State::TagName;
                        self.create_tag(false);
                    }
                    None
                },
            },
            State::TagName => match c {
                None => Some(HtmlToken::Eof),
                Some(c) => {
                    if Self::tag_space(c) {
                        self.state = State::BeforeAttributeName;
                        None
                    } else if c == '/' {
                        self.state = State::SelfClosingStartTag;
                        None
                    } else if c == '>' {
                        self.take_latest_token()
                    } else {
                        self.append_tag_name(to_ascii_lowercase(c));
                        None
                    }
                },
            },
            State::BeforeAttributeName => match c {
                None => {
                    self.reconsume = true;
                    self.state = State::AfterAttributeName;
                    None
                },
                Some(c) => {
                    if Self::tag_space(c) {
                    } else if c == '/' || c == '>' {
                        self.reconsume = true;
                        self.state = State::AfterAttributeName;
                    } else {
                        self.reconsume = true;
                        self.state = State::AttributeName;
                        self.start_new_attribute();
                    }
                    None
                },
            },
            State::AttributeName => match c {
                None => {
                    self.reconsume = true;
                    self.state = State::AfterAttributeName;
                    None
                },
                Some(c) => {
                    if Self::tag_space(c) || c == '/' || c == '>' {
                        self.reconsume = true;
                        self.state = State::AfterAttributeName;
                    } else if c == '=' {
                        self.state = State::BeforeAttributeValue;
                    } else {
                        self.append_attribute(to_ascii_lowercase(c), true);
                    }
                    None
                },
            },
            State::AfterAttributeName => match c {
                None => Some(HtmlToken::Eof),
                Some(c) => {
                    if Self::tag_space(c) {
                        None
                    } else if c == '/' {
                        self.state = State::SelfClosingStartTag;
                        None
                    } else if c == '=' {
                        self.state = State::BeforeAttributeValue;
                        None
                    } else if c == '>' {
                        self.take_latest_token()
                    } else {
                        self.reconsume = true;
                        self.state = State::AttributeName;
                        self.start_new_attribute();
                        None
                    }
                },
            },
            State::BeforeAttributeValue => match c {
                None => {
                    self.reconsume = true;
                    self.state = State::AttributeValueUnquoted;
                    None
                },
                Some(c) => {
                    if Self::tag_space(c) {
                    } else if c == '"' {
                        self.state = State::AttributeValueDoubleQuoted;
                    } else if c == '\'' {
                        self.state = State::AttributeValueSingleQuoted;
                    } else {
                        self.reconsume = true;
                        self.state = State::AttributeValueUnquoted;
                    }
                    None
                },
            },
            State::AttributeValueDoubleQuoted => match c {
                None => Some(HtmlToken::Eof),
                Some(c) => {
                    if c == '"' {
                        self.state = State::AfterAttributeValueQuoted;
                    } else {
                        self.append_attribute(c, false);
                    }
                    None
                },
            },
            State::AttributeValueSingleQuoted => match c {
                None => Some(HtmlToken::Eof),
                Some(c) => {
                    if c == '\'' {
                        self.state = State::AfterAttributeValueQuoted;
                    } else {
                        self.append_attribute(c, false);
                    }
                    None
                },
            },
            State::AttributeValueUnquoted => match c {
                None => Some(HtmlToken::Eof),
                Some(c) => {
                    if Self::tag_space(c) {
                        self.state = State::BeforeAttributeName;
                        None
                    } else if c == '>' {
                        self.take_latest_token()
                    } else {
                        self.append_attribute(c, false);
                        None
                    }
                },
            },
            State::AfterAttributeValueQuoted => match c {
                None => Some(HtmlToken::Eof),
                Some(c) => {
                    if Self::tag_space(c) {
                        self.state = State::BeforeAttributeName;
                        None
                    } else if c == '/' {
                        self.state = State::SelfClosingStartTag;
                        None
                    } else if c == '>' {
                        self.take_latest_token()
                    } else {
                        self.reconsume = true;
                        self.state = State::BeforeAttributeName;
                        None
                    }
                },
            },
            State::SelfClosingStartTag => match c {
                None => Some(HtmlToken::Eof),
                Some(c) => {
                    if c == '>' {
                        self.set_self_closing_flag();
                        self.take_latest_token()
                    } else {
                        None
                    }
                },
            },
            State::ScriptData => match c {
                None => Some(HtmlToken::Eof),
                Some(c) => {
                    if c == '<' {
                        self.state = State::ScriptDataLessThanSign;
                        None
                    } else {
                        Some(HtmlToken::Char(c))
                    }
                },
            },
            State::ScriptDataLessThanSign => {
                match c {
                    Some(c) => {
                        if c == '/' {
                            self.buf = Vec::new();
                            self.state = State::ScriptDataEndTagOpen;
                            return None;
                        }
                    },
                    None => {},
                }
                self.reconsume = true;
                self.state = State::ScriptData;
                Some(HtmlToken::Char('<'))
            },
            State::ScriptDataEndTagOpen => {
                match c {
                    Some(c) => {
                        if is_ascii_alphabetic(c) {
                            self.reconsume = true;
                            self.state = State::ScriptDataEndTagName;
                            self.create_tag(false);
                            return None;
                        }
                    },
                    None => {},
                }
                self.reconsume = true;
                self.state = State::ScriptData;
                let mut kept: Vec<char> = Vec::new();
                kept.push('/');
                self.buf = kept;
                assert(self.buf@ =~= seq!['/']);
                Some(HtmlToken::Char('<'))
            },
            State::ScriptDataEndTagName => {
                match c {
                    Some(c) => {
                        if c == '>' {
                            return self.take_latest_token();
                        }
                        if is_ascii_alphabetic(c) {
                            self.buf.push(c);
                            self.append_tag_name(to_ascii_lowercase(c));
                            return None;
                        }
                    },
                    None => {},
                }
                self.reconsume = true;
                self.state = State::ScriptData;
                self.latest_token = None;
                self.buf.insert(0, '/');
                assert(self.buf@ =~= seq!['/'] + old(self).buf@);
                Some(HtmlToken::Char('<'))
            },
        }
    }

    /// Makes one move.
    fn step(&mut self) -> (r: Option<HtmlToken>)
        requires
            old(self)@.live(),
        ensures
            (final(self)@, token_model(r)) == old(self)@.step(),
    {
        if matches!(self.state, State::ScriptData) && self.buf.len() > 0 {
            let c = self.buf.remove(0);
            assert(self.buf@ =~= old(self).buf@.drop_first());
            return Some(HtmlToken::Char(c));
        }
        let c = self.consume_next_input();
        self.handle(c)
    }

    /// The next token, if there is one more.
    ///
    /// There is none once every character has been read. Where the input
    /// ends inside a tag, the tag is dropped and the last token is the end of
    /// the input.
    pub fn next(&mut self) -> (r: Option<HtmlToken>)
        ensures
            (final(self)@, token_model(r)) == old(self)@.next(),
    {
        if self.eof || self.pos >= self.input.len() {
            return None;
        }
        loop
            invariant
                self@.live(),
                self@.run() == old(self)@.run(),
                old(self)@.pos < old(self)@.input.len(),
            decreases self@.measure(),
        {
            proof {
                lemma_step(self@);
            }
            match self.step() {
                Some(t) => {
                    return Some(t);
                },
                None => {},
            }
        }
    }
}

/// Where a machine yields a token, its tokens are that token and then the
/// tokens of the machine that it has become.
pub proof fn lemma_tokens_unfold(m: HtmlTokenizerModel)
    ensures
        m.next().1 is None ==> m.tokens() == Seq::<HtmlTokenModel>::empty(),
        m.next().1 is Some ==> m.tokens() == seq![m.next().1->0] + m.next().0.tokens(),
        m.next().1 is Some ==> m.next().0.measure() < m.measure() || (m.next().0.measure()
            == m.measure() && m.next().0.buf.len() < m.buf.len()),
        m.next().0.input == m.input,
{
    if m.pos < m.input.len() {
        lemma_run(m);
    }
}

/// A machine that has read every character yields no token, and stays as it
/// is: the sequence of tokens does not start again.
pub proof fn lemma_exhausted(m: HtmlTokenizerModel)
    requires
        m.pos >= m.input.len(),
    ensures
        m.next() == (m, None::<HtmlTokenModel>),
        m.tokens() == Seq::<HtmlTokenModel>::empty(),
{
}

impl HtmlTokenizerModel {
    /// Whether the machine is live, has read a character where it is about
    /// to read one again, and is building nothing but a tag.
    pub open spec fn sound(self) -> bool {
        self.live() && (self.reconsume ==> self.pos >= 1) && !(self.latest_token matches Some(
            t,
        ) && (t is Eof || t is Char))
    }
}

/// A move of a sound machine leaves it sound, unless every character has
/// been read; and it emits the end of the input only when every character has
/// been read.
pub proof fn lemma_step_sound(m: HtmlTokenizerModel)
    requires
        m.sound(),
    ensures
        m.step().1 == Some(HtmlTokenModel::Eof) ==> m.step().0.pos > m.step().0.input.len(),
        m.step().0.pos <= m.step().0.input.len() || m.step().1 is None ==> m.step().0.sound(),
{
    lemma_step(m);
}

/// A run of a sound machine leaves it sound, unless every character has been
/// read; and it emits the end of the input only when every character has
/// been read.
pub proof fn lemma_emitted(m: HtmlTokenizerModel)
    requires
        m.sound(),
    ensures
        m.run().1 == Some(HtmlTokenModel::Eof) ==> m.run().0.pos > m.run().0.input.len(),
        m.run().0.pos <= m.run().0.input.len() ==> m.run().0.sound(),
    decreases m.measure(),
{
    lemma_step(m);
    lemma_step_sound(m);
    if m.step().1 is None {
        lemma_emitted(m.step().0);
    }
}

/// The end of the input is the last token of a machine, if it is one of its
/// tokens at all.
pub proof fn lemma_eof_is_last(m: HtmlTokenizerModel)
    requires
        m.sound(),
    ensures
        forall|i: int|
            0 <= i < m.tokens().len() && m.tokens()[i] is Eof ==> i == m.tokens().len() - 1,
    decreases m.measure(), m.buf.len(),
{
    lemma_tokens_unfold(m);
    let (after, token) = m.next();
    if token is Some {
        lemma_emitted(m);
        if after.pos < after.input.len() {
            lemma_eof_is_last(after);
        } else {
            lemma_exhausted(after);
        }
        assert forall|i: int| 0 <= i < m.tokens().len() && m.tokens()[i] is Eof implies i
            == m.tokens().len() - 1 by {
            if i > 0 {
                assert(m.tokens()[i] == after.tokens()[i - 1]);
            }
        }
    }
}

/// A text without characters yields no token.
pub proof fn lemma_empty_text()
    ensures
        HtmlTokenizerModel::start(Seq::empty()).next().1 is None,
        HtmlTokenizerModel::start(Seq::empty()).tokens() == Seq::<HtmlTokenModel>::empty(),
{
    lemma_exhausted(HtmlTokenizerModel::start(Seq::empty()));
}

/// Whether a text holds no `<` from the index `from` on.
pub open spec fn is_plain(s: Seq<char>, from: int) -> bool {
    forall|i: int| from <= i < s.len() ==> s[i] != '<'
}

/// The characters of a text as tokens.
pub open spec fn chars_as_tokens(s: Seq<char>) -> Seq<HtmlTokenModel> {
    s.map_values(|c: char| char_token(c))
}

/// A character as a token.
pub open spec fn char_token(c: char) -> HtmlTokenModel {
    HtmlTokenModel::Char(c)
}

/// In the state for markup, a text without `<` yields its characters, one
/// token each, and nothing else.
pub proof fn lemma_plain_text(m: HtmlTokenizerModel)
    requires
        m.state == State::Data,
        !m.reconsume,
        m.pos <= m.input.len(),
        is_plain(m.input, m.pos as int),
    ensures
        m.tokens() == chars_as_tokens(m.input.subrange(m.pos as int, m.input.len() as int)),
    decreases m.input.len() - m.pos,
{
    lemma_tokens_unfold(m);
    let rest = m.input.subrange(m.pos as int, m.input.len() as int);
    if m.pos < m.input.len() {
        let after = HtmlTokenizerModel { pos: m.pos + 1, ..m };
        let c = m.input[m.pos as int];
        assert(m.step() == (after, Some(HtmlTokenModel::Char(c))));
        assert(m.run() == m.step());
        lemma_plain_text(after);
        let tail = m.input.subrange(m.pos as int + 1, m.input.len() as int);
        assert(chars_as_tokens(rest) =~= seq![HtmlTokenModel::Char(c)] + chars_as_tokens(tail));
    } else {
        assert(chars_as_tokens(rest) =~= Seq::<HtmlTokenModel>::empty());
    }
}

/// The parts of a tag behind its `<`.
#[derive(Clone, Copy, PartialEq, Eq, Structural)]
pub enum TagPart {
    /// The name of the tag.
    Name,
    /// The names of attributes and the blanks around them.
    Attribute,
    /// What stands between a `=` and the value behind it.
    BeforeValue,
    /// A value without quotes.
    Value,
    /// A value between two of the given quote.
    Quoted(char),
    /// What stands right behind a quoted value.
    AfterQuoted,
    /// What stands behind a `/` outside a value.
    Slash,
}

/// The index of the `>` that ends a tag, read from the index `i` on, where
/// `i` lies in the given part of the tag; the length of the text where the
/// tag does not end.
///
/// A tag ends at the first `>` that is not inside a quoted value. A value
/// follows a `=` behind the name of an attribute, and is quoted where it
/// starts with a quote; it then runs to the next quote of that kind. Blanks
/// divide the name of the tag, the attributes and values without quotes; a
/// `/` outside a value leaves only the `>` to come.
pub open spec fn tag_end(s: Seq<char>, i: int, part: TagPart) -> int
    decreases s.len() - i, (if part == TagPart::BeforeValue || part == TagPart::AfterQuoted {
        1nat
    } else {
        0nat
    }),
{
    if 0 <= i < s.len() {
        let c = s[i];
        match part {
            TagPart::Name => if c == '>' {
                i
            } else if is_tag_space(c) {
                tag_end(s, i + 1, TagPart::Attribute)
            } else if c == '/' {
                tag_end(s, i + 1, TagPart::Slash)
            } else {
                tag_end(s, i + 1, TagPart::Name)
            },
            TagPart::Attribute => if c == '>' {
                i
            } else if c == '/' {
                tag_end(s, i + 1, TagPart::Slash)
            } else if c == '=' {
                tag_end(s, i + 1, TagPart::BeforeValue)
            } else {
                tag_end(s, i + 1, TagPart::Attribute)
            },
            TagPart::BeforeValue => if is_tag_space(c) {
                tag_end(s, i + 1, TagPart::BeforeValue)
            } else if c == '"' || c == '\'' {
                tag_end(s, i + 1, TagPart::Quoted(c))
            } else {
                tag_end(s, i, TagPart::Value)
            },
            TagPart::Value => if c == '>' {
                i
            } else if is_tag_space(c) {
                tag_end(s, i + 1, TagPart::Attribute)
            } else {
                tag_end(s, i + 1, TagPart::Value)
            },
            TagPart::Quoted(q) => if c == q {
                tag_end(s, i + 1, TagPart::AfterQuoted)
            } else {
                tag_end(s, i + 1, TagPart::Quoted(q))
            },
            TagPart::AfterQuoted => if c == '>' {
                i
            } else if is_tag_space(c) {
                tag_end(s, i + 1, TagPart::Attribute)
            } else if c == '/' {
                tag_end(s, i + 1, TagPart::Slash)
            } else {
                tag_end(s, i, TagPart::Attribute)
            },
            TagPart::Slash => if c == '>' {
                i
            } else {
                tag_end(s, i + 1, TagPart::Slash)
            },
        }
    } else {
        s.len() as int
    }
}

/// A tag ends at or behind the place from which it is read, and at a `>` if
/// it ends at all.
pub proof fn lemma_tag_end(s: Seq<char>, i: int, part: TagPart)
    requires
        0 <= i <= s.len(),
    ensures
        i <= tag_end(s, i, part) <= s.len(),
        tag_end(s, i, part) < s.len() ==> s[tag_end(s, i, part)] == '>',
    decreases s.len() - i, (if part == TagPart::BeforeValue || part == TagPart::AfterQuoted {
        1nat
    } else {
        0nat
    }),
{
    if i < s.len() {
        let c = s[i];
        match part {
            TagPart::Name => {
                lemma_tag_end(s, i + 1, TagPart::Attribute);
                lemma_tag_end(s, i + 1, TagPart::Slash);
                lemma_tag_end(s, i + 1, TagPart::Name);
            },
            TagPart::Attribute => {
                lemma_tag_end(s, i + 1, TagPart::Slash);
                lemma_tag_end(s, i + 1, TagPart::BeforeValue);
                lemma_tag_end(s, i + 1, TagPart::Attribute);
            },
            TagPart::BeforeValue => {
                lemma_tag_end(s, i + 1, TagPart::BeforeValue);
                lemma_tag_end(s, i + 1, TagPart::Quoted(c));
                lemma_tag_end(s, i, TagPart::Value);
            },
            TagPart::Value => {
                lemma_tag_end(s, i + 1, TagPart::Attribute);
                lemma_tag_end(s, i + 1, TagPart::Value);
            },
            TagPart::Quoted(q) => {
                lemma_tag_end(s, i + 1, TagPart::AfterQuoted);
                lemma_tag_end(s, i + 1, TagPart::Quoted(q));
            },
            TagPart::AfterQuoted => {
                lemma_tag_end(s, i + 1, TagPart::Attribute);
                lemma_tag_end(s, i + 1, TagPart::Slash);
                lemma_tag_end(s, i, TagPart::Attribute);
            },
            TagPart::Slash => {
                lemma_tag_end(s, i + 1, TagPart::Slash);
            },
        }
    }
}

/// Whether a `<` at `from` opens a tag: a letter follows it, or a `/` and a
/// letter.
pub open spec fn opens_tag(s: Seq<char>, from: int) -> bool {
    from + 1 < s.len() && (spec_is_ascii_alphabetic(s[from + 1]) || (s[from + 1] == '/' && from + 2
        < s.len() && spec_is_ascii_alphabetic(s[from + 2])))
}

/// The index at which the name of the tag starts whose `<` is at `from`.
pub open spec fn name_start(s: Seq<char>, from: int) -> int {
    if from + 1 < s.len() && s[from + 1] == '/' {
        from + 2
    } else {
        from + 1
    }
}

/// The index of the `>` that ends the tag whose `<` is at `from`.
pub open spec fn tag_close(s: Seq<char>, from: int) -> int {
    tag_end(s, name_start(s, from), TagPart::Name)
}

/// Whether the text from `from` on is markup: every `<` outside a tag opens
/// a tag, and every tag ends.
pub open spec fn is_markup(s: Seq<char>, from: int) -> bool
    decreases s.len() - from,
{
    if 0 <= from < s.len() {
        if s[from] == '<' {
            &&& opens_tag(s, from)
            &&& from < tag_close(s, from) < s.len()
            &&& is_markup(s, tag_close(s, from) + 1)
        } else {
            is_markup(s, from + 1)
        }
    } else {
        true
    }
}

/// The characters of markup from `from` on that lie outside its tags.
pub open spec fn outside_tags(s: Seq<char>, from: int) -> Seq<char>
    decreases s.len() - from,
{
    if 0 <= from < s.len() {
        if s[from] == '<' {
            if from < tag_close(s, from) < s.len() {
                outside_tags(s, tag_close(s, from) + 1)
            } else {
                Seq::empty()
            }
        } else {
            seq![s[from]] + outside_tags(s, from + 1)
        }
    } else {
        Seq::empty()
    }
}

/// Whether a token is the start of an element whose content is raw text.
pub open spec fn starts_raw_text(token: HtmlTokenModel) -> bool {
    state_after(token) == State::ScriptData
}

/// Whether no token of a sequence starts raw text.
pub open spec fn no_raw_text(tokens: Seq<HtmlTokenModel>) -> bool {
    forall|k: int| 0 <= k < tokens.len() ==> !starts_raw_text(#[trigger] tokens[k])
}

/// The part of a tag that the machine reads in a state, if it reads a tag
/// in that state.
pub open spec fn part_of(state: State) -> Option<TagPart> {
    match state {
        State::TagName => Some(TagPart::Name),
        State::BeforeAttributeName => Some(TagPart::Attribute),
        State::AttributeName => Some(TagPart::Attribute),
        State::AfterAttributeName => Some(TagPart::Attribute),
        State::BeforeAttributeValue => Some(TagPart::BeforeValue),
        State::AttributeValueUnquoted => Some(TagPart::Value),
        State::AttributeValueDoubleQuoted => Some(TagPart::Quoted('"')),
        State::AttributeValueSingleQuoted => Some(TagPart::Quoted('\'')),
        State::AfterAttributeValueQuoted => Some(TagPart::AfterQuoted),
        State::SelfClosingStartTag => Some(TagPart::Slash),
        _ => None,
    }
}

impl HtmlTokenizerModel {
    /// The index of the character that the next move reads.
    pub open spec fn cursor(self) -> int {
        if self.reconsume {
            self.pos - 1
        } else {
            self.pos as int
        }
    }

    /// Whether the machine is building a tag.
    pub open spec fn builds_tag(self) -> bool {
        self.latest_token matches Some(t) && (t is StartTag || t is EndTag)
    }
}

/// Inside a tag that ends, the machine emits nothing up to the `>` that ends
/// it, and there the tag; it then stands behind the `>`.
pub proof fn lemma_tag_run(m: HtmlTokenizerModel, end: int)
    requires
        part_of(m.state) is Some,
        m.builds_tag(),
        0 <= m.cursor() <= end < m.input.len(),
        tag_end(m.input, m.cursor(), part_of(m.state)->0) == end,
    ensures
        m.run().1 matches Some(t) && (t is StartTag || t is EndTag) && m.run().0.state
            == state_after(t),
        m.run().0.pos == end + 1,
        !m.run().0.reconsume,
        m.run().0.input == m.input,
    decreases m.measure(),
{
    lemma_step(m);
    let (after, token) = m.step();
    assert(m.current() == Some(m.input[m.cursor()]));
    if token is None {
        lemma_tag_end(after.input, after.cursor(), part_of(after.state)->0);
        lemma_tag_run(after, end);
    }
}

} // verus!
