//! The syntax tree of a script and the parser that builds it.

use crate::error::{Error, ErrorModel};
use crate::renderer::css::cssom::unsupported_char_message;
use crate::renderer::js::token::{
    lemma_token_advances, tokens_from, JsLexer, JsLexerModel, Token, TokenModel,
};
use crate::text::{lemma_run_end, run_end, str_is, CharClass};
use vstd::prelude::*;
use vstd::string::StringExecFns;

verus! {

/// A node of the syntax tree. A part that could not be read is `None`.
#[derive(Debug, PartialEq, Eq)]
#[allow(inconsistent_fields)]
pub enum Node {
    ExpressionStatement(Option<Box<Node>>),
    AdditiveExpression { operator: char, left: Option<Box<Node>>, right: Option<Box<Node>> },
    AssignmentExpression { operator: char, left: Option<Box<Node>>, right: Option<Box<Node>> },
    MemberExpression { object: Option<Box<Node>>, property: Option<Box<Node>> },
    NumericLiteral(u64),
    VariableDeclaration { declarations: Vec<Option<Box<Node>>> },
    VariableDeclarator { id: Option<Box<Node>>, init: Option<Box<Node>> },
    Identifier(String),
    StringLiteral(String),
    BlockStatement { body: Vec<Option<Box<Node>>> },
    ReturnStatement { argument: Option<Box<Node>> },
    FunctionDeclaration {
        id: Option<Box<Node>>,
        params: Vec<Option<Box<Node>>>,
        body: Option<Box<Node>>,
    },
    CallExpression { callee: Option<Box<Node>>, arguments: Vec<Option<Box<Node>>> },
}

impl Node {
    pub fn new_expression_statement(expression: Option<Box<Node>>) -> (r: Option<Box<Node>>)
        ensures
            r == Some(Box::new(Node::ExpressionStatement(expression))),
    {
        Some(Box::new(Node::ExpressionStatement(expression)))
    }

    pub fn new_additive_expression(
        operator: char,
        left: Option<Box<Node>>,
        right: Option<Box<Node>>,
    ) -> (r: Option<Box<Node>>)
        ensures
            r == Some(Box::new(Node::AdditiveExpression { operator, left, right })),
    {
        Some(Box::new(Node::AdditiveExpression { operator, left, right }))
    }

    pub fn new_assignment_expression(
        operator: char,
        left: Option<Box<Node>>,
        right: Option<Box<Node>>,
    ) -> (r: Option<Box<Node>>)
        ensures
            r == Some(Box::new(Node::AssignmentExpression { operator, left, right })),
    {
        Some(Box::new(Node::AssignmentExpression { operator, left, right }))
    }

    pub fn new_member_expression(
        object: Option<Box<Node>>,
        property: Option<Box<Node>>,
    ) -> (r: Option<Box<Node>>)
        ensures
            r == Some(Box::new(Node::MemberExpression { object, property })),
    {
        Some(Box::new(Node::MemberExpression { object, property }))
    }

    pub fn new_numeric_literal(value: u64) -> (r: Option<Box<Node>>)
        ensures
            r == Some(Box::new(Node::NumericLiteral(value))),
    {
        Some(Box::new(Node::NumericLiteral(value)))
    }

    pub fn new_variable_declarator(
        id: Option<Box<Node>>,
        init: Option<Box<Node>>,
    ) -> (r: Option<Box<Node>>)
        ensures
            r == Some(Box::new(Node::VariableDeclarator { id, init })),
    {
        Some(Box::new(Node::VariableDeclarator { id, init }))
    }

    pub fn new_variable_declaration(declarations: Vec<Option<Box<Node>>>) -> (r: Option<
        Box<Node>,
    >)
        ensures
            r == Some(Box::new(Node::VariableDeclaration { declarations })),
    {
        Some(Box::new(Node::VariableDeclaration { declarations }))
    }

    pub fn new_identifier(name: String) -> (r: Option<Box<Node>>)
        ensures
            r == Some(Box::new(Node::Identifier(name))),
    {
        Some(Box::new(Node::Identifier(name)))
    }

    pub fn new_string_literal(value: String) -> (r: Option<Box<Node>>)
        ensures
            r == Some(Box::new(Node::StringLiteral(value))),
    {
        Some(Box::new(Node::StringLiteral(value)))
    }

    pub fn new_block_statement(body: Vec<Option<Box<Node>>>) -> (r: Option<Box<Node>>)
        ensures
            r == Some(Box::new(Node::BlockStatement { body })),
    {
        Some(Box::new(Node::BlockStatement { body }))
    }

    pub fn new_return_statement(argument: Option<Box<Node>>) -> (r: Option<Box<Node>>)
        ensures
            r == Some(Box::new(Node::ReturnStatement { argument })),
    {
        Some(Box::new(Node::ReturnStatement { argument }))
    }

    pub fn new_function_declaration(
        id: Option<Box<Node>>,
        params: Vec<Option<Box<Node>>>,
        body: Option<Box<Node>>,
    ) -> (r: Option<Box<Node>>)
        ensures
            r == Some(Box::new(Node::FunctionDeclaration { id, params, body })),
    {
        Some(Box::new(Node::FunctionDeclaration { id, params, body }))
    }

    pub fn new_call_expression(
        callee: Option<Box<Node>>,
        arguments: Vec<Option<Box<Node>>>,
    ) -> (r: Option<Box<Node>>)
        ensures
            r == Some(Box::new(Node::CallExpression { callee, arguments })),
    {
        Some(Box::new(Node::CallExpression { callee, arguments }))
    }
}

/// The model of a node of the syntax tree.
pub enum Syntax {
    ExpressionStatement(Option<Box<Syntax>>),
    AdditiveExpression { operator: char, left: Option<Box<Syntax>>, right: Option<Box<Syntax>> },
    AssignmentExpression { operator: char, left: Option<Box<Syntax>>, right: Option<Box<Syntax>> },
    MemberExpression { object: Option<Box<Syntax>>, property: Option<Box<Syntax>> },
    NumericLiteral(u64),
    VariableDeclaration { declarations: Seq<Option<Box<Syntax>>> },
    VariableDeclarator { id: Option<Box<Syntax>>, init: Option<Box<Syntax>> },
    Identifier(Seq<char>),
    StringLiteral(Seq<char>),
    BlockStatement { statements: Seq<Option<Box<Syntax>>> },
    ReturnStatement { argument: Option<Box<Syntax>> },
    FunctionDeclaration {
        id: Option<Box<Syntax>>,
        params: Seq<Option<Box<Syntax>>>,
        body: Option<Box<Syntax>>,
    },
    CallExpression { callee: Option<Box<Syntax>>, arguments: Seq<Option<Box<Syntax>>> },
}

/// The model of a node.
pub open spec fn syntax(node: Node) -> Syntax
    decreases node, 0nat,
{
    match node {
        Node::ExpressionStatement(expression) => Syntax::ExpressionStatement(
            child_syntax(expression),
        ),
        Node::AdditiveExpression { operator, left, right } => Syntax::AdditiveExpression {
            operator,
            left: child_syntax(left),
            right: child_syntax(right),
        },
        Node::AssignmentExpression { operator, left, right } => Syntax::AssignmentExpression {
            operator,
            left: child_syntax(left),
            right: child_syntax(right),
        },
        Node::MemberExpression { object, property } => Syntax::MemberExpression {
            object: child_syntax(object),
            property: child_syntax(property),
        },
        Node::NumericLiteral(value) => Syntax::NumericLiteral(value),
        Node::VariableDeclaration { declarations } => Syntax::VariableDeclaration {
            declarations: list_syntax(declarations@),
        },
        Node::VariableDeclarator { id, init } => Syntax::VariableDeclarator {
            id: child_syntax(id),
            init: child_syntax(init),
        },
        Node::Identifier(name) => Syntax::Identifier(name@),
        Node::StringLiteral(value) => Syntax::StringLiteral(value@),
        Node::BlockStatement { body } => Syntax::BlockStatement { statements: list_syntax(body@) },
        Node::ReturnStatement { argument } => Syntax::ReturnStatement {
            argument: child_syntax(argument),
        },
        Node::FunctionDeclaration { id, params, body } => Syntax::FunctionDeclaration {
            id: child_syntax(id),
            params: list_syntax(params@),
            body: child_syntax(body),
        },
        Node::CallExpression { callee, arguments } => Syntax::CallExpression {
            callee: child_syntax(callee),
            arguments: list_syntax(arguments@),
        },
    }
}

/// The model of a node that may not be there.
pub open spec fn child_syntax(child: Option<Box<Node>>) -> Option<Box<Syntax>>
    decreases child, 0nat,
{
    match child {
        Some(n) => Some(Box::new(syntax(*n))),
        None => None,
    }
}

/// The models of the nodes of a list.
pub open spec fn list_syntax(list: Seq<Option<Box<Node>>>) -> Seq<Option<Box<Syntax>>>
    decreases list, list.len(),
{
    if list.len() == 0 {
        Seq::empty()
    } else {
        list_syntax(list.drop_last()).push(child_syntax(list.last()))
    }
}

impl View for Node {
    type V = Syntax;

    open spec fn view(&self) -> Syntax {
        syntax(*self)
    }
}

/// A script: its statements and function declarations in order.
#[derive(Debug, PartialEq, Eq)]
pub struct Program {
    pub body: Vec<Node>,
}

/// The models of the nodes of a script.
pub open spec fn body_syntax(body: Seq<Node>) -> Seq<Syntax> {
    body.map_values(|n: Node| n@)
}

impl Program {
    pub fn new() -> (p: Self)
        ensures
            p.body@ == Seq::<Node>::empty(),
    {
        Self { body: Vec::new() }
    }

    pub fn set_body(&mut self, body: Vec<Node>)
        ensures
            final(self).body == body,
    {
        self.body = body;
    }

    pub fn body(&self) -> (r: &Vec<Node>)
        ensures
            *r == self.body,
    {
        &self.body
    }
}

pub open spec fn tokens_model(tokens: Seq<Token>) -> Seq<TokenModel> {
    tokens.map_values(|t: Token| t@)
}

/// What reading one part of a script gives: the part, if it could be read,
/// and the index of the first token behind it.
pub type Read = (Option<Box<Syntax>>, int);

/// What reading a list of parts gives: the parts, and the index of the first
/// token behind them.
pub type ReadList = (Seq<Option<Box<Syntax>>>, int);

/// Whether the token at `p` is the punctuator `c`.
pub open spec fn punctuator_at(ts: Seq<TokenModel>, p: int, c: char) -> bool {
    0 <= p < ts.len() && ts[p] == TokenModel::Punctuator(c)
}

/// Whether the token at `p` is the keyword `word`.
pub open spec fn keyword_at(ts: Seq<TokenModel>, p: int, word: Seq<char>) -> bool {
    0 <= p < ts.len() && ts[p] == TokenModel::Keyword(word)
}

/// A name, a text or a number. Another token is read and dropped.
pub open spec fn primary_at(ts: Seq<TokenModel>, p: int) -> Read {
    if 0 <= p < ts.len() {
        (
            match ts[p] {
                TokenModel::Identifier(value) => Some(Box::new(Syntax::Identifier(value))),
                TokenModel::StringLiteral(value) => Some(Box::new(Syntax::StringLiteral(value))),
                TokenModel::Number(value) => Some(Box::new(Syntax::NumericLiteral(value))),
                _ => None,
            },
            p + 1,
        )
    } else {
        (None, p)
    }
}

/// A name. Another token is read and dropped.
pub open spec fn identifier_at(ts: Seq<TokenModel>, p: int) -> Read {
    if 0 <= p < ts.len() {
        (
            match ts[p] {
                TokenModel::Identifier(name) => Some(Box::new(Syntax::Identifier(name))),
                _ => None,
            },
            p + 1,
        )
    } else {
        (None, p)
    }
}

/// A value, or a value, `.` and a name.
pub open spec fn member_at(ts: Seq<TokenModel>, p: int) -> Read {
    let (expr, n) = primary_at(ts, p);
    if punctuator_at(ts, n, '.') {
        let (property, m) = identifier_at(ts, n + 1);
        (Some(Box::new(Syntax::MemberExpression { object: expr, property })), m)
    } else {
        (expr, n)
    }
}

/// A member, or a member and, between `(` and `)`, the arguments of a call.
pub open spec fn left_hand_side_at(ts: Seq<TokenModel>, p: int) -> Read
    decreases ts.len() - p, 3nat,
{
    let (expr, n) = member_at(ts, p);
    if punctuator_at(ts, n, '(') && p < n {
        let (arguments, m) = arguments_from(ts, n + 1);
        (Some(Box::new(Syntax::CallExpression { callee: expr, arguments })), m)
    } else {
        (expr, n)
    }
}

/// The values from `p` up to `)`. Commas between them are passed over;
/// another punctuator ends the list and is not read.
pub open spec fn arguments_from(ts: Seq<TokenModel>, p: int) -> ReadList
    decreases ts.len() - p, 6nat,
{
    if 0 <= p < ts.len() {
        match ts[p] {
            TokenModel::Punctuator(c) => if c == ')' {
                (Seq::empty(), p + 1)
            } else if c == ',' {
                arguments_from(ts, p + 1)
            } else {
                (Seq::empty(), p)
            },
            _ => {
                let (argument, n) = assignment_at(ts, p);
                if p < n <= ts.len() {
                    let (rest, m) = arguments_from(ts, n);
                    (seq![argument] + rest, m)
                } else {
                    (seq![argument], n)
                }
            },
        }
    } else {
        (Seq::empty(), p)
    }
}

/// A term, or a term, `+` or `-`, and what follows.
pub open spec fn additive_at(ts: Seq<TokenModel>, p: int) -> Read
    decreases ts.len() - p, 4nat,
{
    let (left, n) = left_hand_side_at(ts, p);
    if p < n && (punctuator_at(ts, n, '+') || punctuator_at(ts, n, '-')) {
        let (right, m) = assignment_at(ts, n + 1);
        (
            Some(
                Box::new(
                    Syntax::AdditiveExpression { operator: ts[n]->Punctuator_0, left, right },
                ),
            ),
            m,
        )
    } else {
        (left, n)
    }
}

/// A sum, or a sum, `=` and a value.
pub open spec fn assignment_at(ts: Seq<TokenModel>, p: int) -> Read
    decreases ts.len() - p, 5nat,
{
    let (expr, n) = additive_at(ts, p);
    if punctuator_at(ts, n, '=') && p < n {
        let (right, m) = assignment_at(ts, n + 1);
        (Some(Box::new(Syntax::AssignmentExpression { operator: '=', left: expr, right })), m)
    } else {
        (expr, n)
    }
}

/// A `=` and the value behind it. Another token is read and dropped.
pub open spec fn initialiser_at(ts: Seq<TokenModel>, p: int) -> Read
    decreases ts.len() - p, 7nat,
{
    if 0 <= p < ts.len() {
        if punctuator_at(ts, p, '=') {
            assignment_at(ts, p + 1)
        } else {
            (None, p + 1)
        }
    } else {
        (None, p)
    }
}

/// What follows the word `var`: a name and, behind `=`, a value.
pub open spec fn variable_declaration_at(ts: Seq<TokenModel>, p: int) -> Read
    decreases ts.len() - p, 8nat,
{
    let (ident, after_name) = identifier_at(ts, p);
    let (init, after_head) = initialiser_at(ts, after_name);
    (
        Some(
            Box::new(
                Syntax::VariableDeclaration {
                    declarations: seq![
                        Some(Box::new(Syntax::VariableDeclarator { id: ident, init })),
                    ],
                },
            ),
        ),
        after_head,
    )
}

/// A declaration of a variable, a `return`, or an expression; and the `;`
/// behind it, if there is one.
pub open spec fn statement_at(ts: Seq<TokenModel>, p: int) -> Read
    decreases ts.len() - p, 9nat,
{
    if 0 <= p < ts.len() {
        let (node, n) = if keyword_at(ts, p, "var"@) {
            variable_declaration_at(ts, p + 1)
        } else if keyword_at(ts, p, "return"@) {
            let (argument, n) = assignment_at(ts, p + 1);
            (Some(Box::new(Syntax::ReturnStatement { argument })), n)
        } else if ts[p] is Keyword {
            (None, p)
        } else {
            let (expression, n) = assignment_at(ts, p);
            (Some(Box::new(Syntax::ExpressionStatement(expression))), n)
        };
        if punctuator_at(ts, n, ';') {
            (node, n + 1)
        } else {
            (node, n)
        }
    } else {
        (None, p)
    }
}

/// The names from `p` up to `)`. Commas between them are passed over;
/// another punctuator ends the list and is not read.
pub open spec fn parameters_from(ts: Seq<TokenModel>, p: int) -> ReadList
    decreases ts.len() - p,
{
    if 0 <= p < ts.len() {
        match ts[p] {
            TokenModel::Punctuator(c) => if c == ')' {
                (Seq::empty(), p + 1)
            } else if c == ',' {
                parameters_from(ts, p + 1)
            } else {
                (Seq::empty(), p)
            },
            _ => {
                let (id, n) = identifier_at(ts, p);
                let (rest, m) = parameters_from(ts, n);
                (seq![id] + rest, m)
            },
        }
    } else {
        (Seq::empty(), p)
    }
}

/// The names between `(` and `)`; nothing where no `(` stands.
pub open spec fn parameter_list_at(ts: Seq<TokenModel>, p: int) -> ReadList {
    if punctuator_at(ts, p, '(') {
        parameters_from(ts, p + 1)
    } else {
        (Seq::empty(), p)
    }
}

/// The statements from `p` up to `}`.
pub open spec fn statements_from(ts: Seq<TokenModel>, p: int) -> ReadList
    decreases ts.len() - p, 11nat,
{
    if 0 <= p < ts.len() {
        if punctuator_at(ts, p, '}') {
            (Seq::empty(), p + 1)
        } else {
            let (node, n) = source_element_at(ts, p);
            if p < n <= ts.len() {
                let (rest, m) = statements_from(ts, n);
                (seq![node] + rest, m)
            } else {
                (Seq::empty(), p)
            }
        }
    } else {
        (Seq::empty(), p)
    }
}

/// The statements between `{` and `}`; nothing where no `{` stands.
pub open spec fn function_body_at(ts: Seq<TokenModel>, p: int) -> Read
    decreases ts.len() - p, 8nat,
{
    if punctuator_at(ts, p, '{') {
        let (statements, n) = statements_from(ts, p + 1);
        (Some(Box::new(Syntax::BlockStatement { statements })), n)
    } else {
        (None, p)
    }
}

/// What follows the word `function`: a name, parameters and a body.
pub open spec fn function_declaration_at(ts: Seq<TokenModel>, p: int) -> Read
    decreases ts.len() - p, 9nat,
{
    let (id, after_name) = identifier_at(ts, p);
    let (params, after_head) = parameter_list_at(ts, after_name);
    if p <= after_head <= ts.len() {
        let (body, after_body) = function_body_at(ts, after_head);
        (Some(Box::new(Syntax::FunctionDeclaration { id, params, body })), after_body)
    } else {
        (None, after_head)
    }
}

/// A function declaration or a statement.
pub open spec fn source_element_at(ts: Seq<TokenModel>, p: int) -> Read
    decreases ts.len() - p, 10nat,
{
    if 0 <= p < ts.len() {
        if keyword_at(ts, p, "function"@) {
            function_declaration_at(ts, p + 1)
        } else {
            statement_at(ts, p)
        }
    } else {
        (None, p)
    }
}

/// The script that the tokens from `p` on hold: one function declaration or
/// statement after the other, up to the first place where none can be read.
pub open spec fn program_from(ts: Seq<TokenModel>, p: int) -> Seq<Syntax>
    decreases ts.len() - p,
{
    if 0 <= p < ts.len() {
        let (node, n) = source_element_at(ts, p);
        match node {
            Some(statement) => if p < n <= ts.len() {
                seq![*statement] + program_from(ts, n)
            } else {
                Seq::empty()
            },
            None => Seq::empty(),
        }
    } else {
        Seq::empty()
    }
}

/// The model of a list of tokens holds, at each index, the model of the token
/// at that index.
pub proof fn lemma_model_index(tokens: Seq<Token>, i: int)
    requires
        0 <= i < tokens.len(),
    ensures
        tokens_model(tokens).len() == tokens.len(),
        tokens_model(tokens)[i] == tokens[i]@,
{
}

/// The model of a list with one more node is the model of the list with the
/// model of the node behind it.
pub proof fn lemma_list_push(list: Seq<Option<Box<Node>>>, child: Option<Box<Node>>)
    ensures
        list_syntax(list.push(child)) == list_syntax(list).push(child_syntax(child)),
{
    assert(list.push(child).drop_last() =~= list);
}

/// The model of a list holds, at each index, the model of the node at that
/// index.
pub proof fn lemma_list_index(list: Seq<Option<Box<Node>>>, i: int)
    requires
        0 <= i < list.len(),
    ensures
        list_syntax(list).len() == list.len(),
        list_syntax(list)[i] == child_syntax(list[i]),
    decreases list.len(),
{
    lemma_list_len(list);
    if i < list.len() - 1 {
        lemma_list_index(list.drop_last(), i);
    }
}

/// The model of a list has as many nodes as the list.
pub proof fn lemma_list_len(list: Seq<Option<Box<Node>>>)
    ensures
        list_syntax(list).len() == list.len(),
    decreases list.len(),
{
    if list.len() > 0 {
        lemma_list_len(list.drop_last());
    }
}

/// A parser over the tokens of a script.
#[derive(Debug)]
pub struct JsParser {
    t: JsLexer,
}

impl View for JsParser {
    type V = JsLexerModel;

    closed spec fn view(&self) -> JsLexerModel {
        self.t@
    }
}

/// What one step of the parser gives: what it has read, and the index of the
/// first token after that.
type Parsed = (Option<Box<Node>>, usize);

/// What a step that reads a list gives.
type ParsedList = (Vec<Option<Box<Node>>>, usize);

/// Whether a step of the parser has given what the grammar says.
pub open spec fn agrees(r: (Option<Box<Node>>, usize), expected: Read) -> bool {
    child_syntax(r.0) == expected.0 && r.1 == expected.1
}

/// Whether a step that reads a list has given what the grammar says.
pub open spec fn list_agrees(r: (Vec<Option<Box<Node>>>, usize), expected: ReadList) -> bool {
    list_syntax(r.0@) == expected.0 && r.1 == expected.1
}

impl JsParser {
    pub fn new(t: JsLexer) -> (p: Self)
        ensures
            p@ == t@,
    {
        Self { t }
    }

    /// Reads the whole script.
    ///
    /// The result is an error exactly when the text holds a place at which no
    /// token starts. Otherwise it is the script that the tokens hold.
    pub fn parse_ast(&mut self) -> (r: Result<Program, Error>)
        ensures
            match tokens_from(old(self)@.input, old(self)@.pos as int) {
                Ok(ts) => r is Ok && body_syntax(r->Ok_0.body@) == program_from(ts, 0),
                Err(at) => r is Err && r->Err_0@ == ErrorModel::UnexpectedInput(
                    unsupported_char_message(old(self)@.input[at]),
                ),
            },
    {
        match self.collect_tokens() {
            Ok(tokens) => {
                let mut program = Program::new();
                let mut body: Vec<Node> = Vec::new();
                let mut p: usize = 0;
                let ghost ts = tokens_model(tokens@);
                assert(body_syntax(body@) =~= Seq::empty());
                while p < tokens.len()
                    invariant
                        p <= tokens.len(),
                        ts == tokens_model(tokens@),
                        program_from(ts, 0) == body_syntax(body@) + program_from(ts, p as int),
                    ensures
                        program_from(ts, 0) == body_syntax(body@),
                    decreases tokens.len() - p,
                {
                    let ghost so_far = body_syntax(body@);
                    let (node, n) = Self::source_element(&tokens, p);
                    match node {
                        Some(node) => {
                            if n <= p {
                                assert(so_far + Seq::<Syntax>::empty() =~= so_far);
                                break ;
                            }
                            proof {
                                assert(so_far + (seq![node@] + program_from(ts, n as int))
                                    =~= so_far.push(node@) + program_from(ts, n as int));
                            }
                            body.push(*node);
                            assert(body_syntax(body@) =~= so_far.push(node@));
                            p = n;
                        },
                        None => {
                            assert(so_far + Seq::<Syntax>::empty() =~= so_far);
                            break ;
                        },
                    }
                }
                proof {
                    if p >= tokens.len() {
                        assert(body_syntax(body@) + Seq::<Syntax>::empty() =~= body_syntax(body@));
                    }
                }
                program.set_body(body);
                Ok(program)
            },
            Err(e) => Err(e),
        }
    }

    /// Drains the lexer.
    fn collect_tokens(&mut self) -> (r: Result<Vec<Token>, Error>)
        ensures
            match tokens_from(old(self)@.input, old(self)@.pos as int) {
                Ok(ts) => r is Ok && tokens_model(r->Ok_0@) == ts,
                Err(at) => r is Err && r->Err_0@ == ErrorModel::UnexpectedInput(
                    unsupported_char_message(old(self)@.input[at]),
                ),
            },
    {
        let mut tokens: Vec<Token> = Vec::new();
        let ghost input = self.t@.input;
        let ghost start = self.t@.pos as int;
        assert(tokens_model(tokens@) =~= Seq::empty());
        loop
            invariant
                self.t@.input == input,
                input == old(self)@.input,
                start == old(self)@.pos,
                match tokens_from(input, self.t@.pos as int) {
                    Ok(rest) => tokens_from(input, start) == Ok::<Seq<TokenModel>, int>(
                        tokens_model(tokens@) + rest,
                    ),
                    Err(at) => tokens_from(input, start) == Err::<Seq<TokenModel>, int>(at),
                },
            decreases input.len() - self.t@.pos,
        {
            let ghost before = self.t@.pos;
            let ghost so_far = tokens_model(tokens@);
            proof {
                if before <= input.len() {
                    lemma_run_end(input, before as int, CharClass::Blank);
                    let q = run_end(input, before as int, CharClass::Blank);
                    if q < input.len() {
                        lemma_token_advances(input, q);
                    }
                }
            }
            match self.t.next() {
                Some(token) => {
                    tokens.push(token);
                    proof {
                        assert(tokens_model(tokens@) =~= so_far.push(token@));
                        match tokens_from(input, self.t@.pos as int) {
                            Ok(rest) => {
                                assert(so_far + (seq![token@] + rest) =~= so_far.push(token@)
                                    + rest);
                            },
                            Err(at) => {},
                        }
                    }
                },
                None => {
                    match self.t.rejected() {
                        Some(c) => {
                            let mut message = String::from_str("char ");
                            message.push(c);
                            message.append(" is not supported yet");
                            proof {
                                let q = run_end(input, before as int, CharClass::Blank);
                                assert(tokens_from(input, before as int) == Err::<
                                    Seq<TokenModel>,
                                    int,
                                >(q));
                                assert(message@ =~= unsupported_char_message(input[q]));
                            }
                            return Err(Error::UnexpectedInput(message));
                        },
                        None => {
                            proof {
                                assert(tokens_from(input, before as int) == Ok::<
                                    Seq<TokenModel>,
                                    int,
                                >(Seq::empty()));
                                assert(tokens_model(tokens@) + Seq::empty() =~= tokens_model(
                                    tokens@,
                                ));
                            }
                            return Ok(tokens);
                        },
                    }
                },
            }
        }
    }

    fn is_punctuator(tokens: &Vec<Token>, p: usize, c: char) -> (r: bool)
        ensures
            r == punctuator_at(tokens_model(tokens@), p as int, c),
    {
        if p < tokens.len() {
            proof {
                lemma_model_index(tokens@, p as int);
            }
            match &tokens[p] {
                Token::Punctuator(d) => *d == c,
                _ => false,
            }
        } else {
            false
        }
    }

    fn is_keyword(tokens: &Vec<Token>, p: usize, word: &str) -> (r: bool)
        ensures
            r == keyword_at(tokens_model(tokens@), p as int, word@),
    {
        if p < tokens.len() {
            proof {
                lemma_model_index(tokens@, p as int);
            }
            match &tokens[p] {
                Token::Keyword(k) => str_is(k, word),
                _ => false,
            }
        } else {
            false
        }
    }

    fn source_element(tokens: &Vec<Token>, p: usize) -> (r: Parsed)
        requires
            p <= tokens.len(),
        ensures
            agrees(r, source_element_at(tokens_model(tokens@), p as int)),
            p <= r.1 <= tokens.len(),
        decreases tokens.len() - p, 10nat,
    {
        if p >= tokens.len() {
            return (None, p);
        }
        if Self::is_keyword(tokens, p, "function") {
            Self::function_declaration(tokens, p + 1)
        } else {
            Self::statement(tokens, p)
        }
    }

    fn function_declaration(tokens: &Vec<Token>, p: usize) -> (r: Parsed)
        requires
            p <= tokens.len(),
        ensures
            agrees(r, function_declaration_at(tokens_model(tokens@), p as int)),
            p <= r.1 <= tokens.len(),
        decreases tokens.len() - p, 9nat,
    {
        let (id, after_name) = Self::identifier(tokens, p);
        let (params, after_head) = Self::parameter_list(tokens, after_name);
        let (body, after_body) = Self::function_body(tokens, after_head);
        (Node::new_function_declaration(id, params, body), after_body)
    }

    fn parameter_list(tokens: &Vec<Token>, start: usize) -> (r: ParsedList)
        requires
            start <= tokens.len(),
        ensures
            list_agrees(r, parameter_list_at(tokens_model(tokens@), start as int)),
            start <= r.1 <= tokens.len(),
    {
        let mut params: Vec<Option<Box<Node>>> = Vec::new();
        let ghost ts = tokens_model(tokens@);
        assert(list_syntax(params@) =~= Seq::empty());
        if !Self::is_punctuator(tokens, start, '(') {
            return (params, start);
        }
        let mut p: usize = start + 1;
        let ghost goal = parameters_from(ts, start + 1);
        while p < tokens.len()
            invariant
                start < p <= tokens.len(),
                ts == tokens_model(tokens@),
                goal == parameters_from(ts, start + 1),
                punctuator_at(ts, start as int, '('),
                goal == (list_syntax(params@) + parameters_from(ts, p as int).0, parameters_from(
                    ts,
                    p as int,
                ).1),
            decreases tokens.len() - p,
        {
            let ghost so_far = list_syntax(params@);
            proof {
                lemma_model_index(tokens@, p as int);
            }
            match &tokens[p] {
                Token::Punctuator(c) => {
                    if *c == ')' {
                        assert(so_far + Seq::empty() =~= so_far);
                        return (params, p + 1);
                    }
                    if *c == ',' {
                        p += 1;
                    } else {
                        assert(so_far + Seq::empty() =~= so_far);
                        return (params, p);
                    }
                },
                _ => {
                    let (id, n) = Self::identifier(tokens, p);
                    proof {
                        lemma_list_push(params@, id);
                        assert(so_far + (seq![child_syntax(id)] + parameters_from(ts, n as int).0)
                            =~= so_far.push(child_syntax(id)) + parameters_from(ts, n as int).0);
                    }
                    params.push(id);
                    p = n;
                },
            }
        }
        assert(list_syntax(params@) + Seq::empty() =~= list_syntax(params@));
        (params, p)
    }

    fn function_body(tokens: &Vec<Token>, start: usize) -> (r: Parsed)
        requires
            start <= tokens.len(),
        ensures
            agrees(r, function_body_at(tokens_model(tokens@), start as int)),
            start <= r.1 <= tokens.len(),
        decreases tokens.len() - start, 8nat,
    {
        if !Self::is_punctuator(tokens, start, '{') {
            return (None, start);
        }
        let mut body: Vec<Option<Box<Node>>> = Vec::new();
        let ghost ts = tokens_model(tokens@);
        assert(list_syntax(body@) =~= Seq::empty());
        let mut p: usize = start + 1;
        let ghost goal = statements_from(ts, start + 1);
        while p < tokens.len()
            invariant
                start < p <= tokens.len(),
                ts == tokens_model(tokens@),
                goal == statements_from(ts, start + 1),
                punctuator_at(ts, start as int, '{'),
                goal == (list_syntax(body@) + statements_from(ts, p as int).0, statements_from(
                    ts,
                    p as int,
                ).1),
            decreases tokens.len() - p,
        {
            let ghost so_far = list_syntax(body@);
            if Self::is_punctuator(tokens, p, '}') {
                assert(so_far + Seq::empty() =~= so_far);
                return (Node::new_block_statement(body), p + 1);
            }
            let (node, n) = Self::source_element(tokens, p);
            if n <= p {
                assert(so_far + Seq::empty() =~= so_far);
                return (Node::new_block_statement(body), p);
            }
            proof {
                lemma_list_push(body@, node);
                assert(so_far + (seq![child_syntax(node)] + statements_from(ts, n as int).0)
                    =~= so_far.push(child_syntax(node)) + statements_from(ts, n as int).0);
            }
            body.push(node);
            p = n;
        }
        assert(list_syntax(body@) + Seq::empty() =~= list_syntax(body@));
        (Node::new_block_statement(body), p)
    }

    fn statement(tokens: &Vec<Token>, p: usize) -> (r: Parsed)
        requires
            p <= tokens.len(),
        ensures
            agrees(r, statement_at(tokens_model(tokens@), p as int)),
            p <= r.1 <= tokens.len(),
        decreases tokens.len() - p, 9nat,
    {
        if p >= tokens.len() {
            return (None, p);
        }
        proof {
            lemma_model_index(tokens@, p as int);
        }
        let is_keyword = matches!(tokens[p], Token::Keyword(_));
        let (node, n) = if Self::is_keyword(tokens, p, "var") {
            Self::variable_declaration(tokens, p + 1)
        } else if Self::is_keyword(tokens, p, "return") {
            let (argument, n) = Self::assignment_expression(tokens, p + 1);
            (Node::new_return_statement(argument), n)
        } else if is_keyword {
            (None, p)
        } else {
            let (expression, n) = Self::assignment_expression(tokens, p);
            (Node::new_expression_statement(expression), n)
        };
        if Self::is_punctuator(tokens, n, ';') {
            (node, n + 1)
        } else {
            (node, n)
        }
    }

    fn variable_declaration(tokens: &Vec<Token>, p: usize) -> (r: Parsed)
        requires
            p <= tokens.len(),
        ensures
            agrees(r, variable_declaration_at(tokens_model(tokens@), p as int)),
            p <= r.1 <= tokens.len(),
        decreases tokens.len() - p, 8nat,
    {
        let (ident, after_name) = Self::identifier(tokens, p);
        let (init, after_head) = Self::initialiser(tokens, after_name);
        let declarator = Node::new_variable_declarator(ident, init);
        let mut declarations: Vec<Option<Box<Node>>> = Vec::new();
        proof {
            assert(list_syntax(declarations@) =~= Seq::empty());
            lemma_list_push(declarations@, declarator);
        }
        declarations.push(declarator);
        assert(list_syntax(declarations@) =~= seq![child_syntax(declarator)]);
        (Node::new_variable_declaration(declarations), after_head)
    }

    fn identifier(tokens: &Vec<Token>, p: usize) -> (r: Parsed)
        requires
            p <= tokens.len(),
        ensures
            agrees(r, identifier_at(tokens_model(tokens@), p as int)),
            p <= r.1 <= tokens.len(),
            p < tokens.len() ==> r.1 == p + 1,
    {
        if p >= tokens.len() {
            return (None, p);
        }
        proof {
            lemma_model_index(tokens@, p as int);
        }
        match &tokens[p] {
            Token::Identifier(name) => (Node::new_identifier(name.clone()), p + 1),
            _ => (None, p + 1),
        }
    }

    fn initialiser(tokens: &Vec<Token>, p: usize) -> (r: Parsed)
        requires
            p <= tokens.len(),
        ensures
            agrees(r, initialiser_at(tokens_model(tokens@), p as int)),
            p <= r.1 <= tokens.len(),
        decreases tokens.len() - p, 7nat,
    {
        if p >= tokens.len() {
            return (None, p);
        }
        if Self::is_punctuator(tokens, p, '=') {
            Self::assignment_expression(tokens, p + 1)
        } else {
            (None, p + 1)
        }
    }

    fn assignment_expression(tokens: &Vec<Token>, p: usize) -> (r: Parsed)
        requires
            p <= tokens.len(),
        ensures
            agrees(r, assignment_at(tokens_model(tokens@), p as int)),
            p <= r.1 <= tokens.len(),
            p < tokens.len() ==> p < r.1,
        decreases tokens.len() - p, 5nat,
    {
        let (expr, n) = Self::additive_expression(tokens, p);
        if Self::is_punctuator(tokens, n, '=') && p < n {
            let (right, m) = Self::assignment_expression(tokens, n + 1);
            (Node::new_assignment_expression('=', expr, right), m)
        } else {
            (expr, n)
        }
    }

    fn additive_expression(tokens: &Vec<Token>, p: usize) -> (r: Parsed)
        requires
            p <= tokens.len(),
        ensures
            agrees(r, additive_at(tokens_model(tokens@), p as int)),
            p <= r.1 <= tokens.len(),
            p < tokens.len() ==> p < r.1,
        decreases tokens.len() - p, 4nat,
    {
        let (left, n) = Self::left_hand_side_expression(tokens, p);
        if n < tokens.len() && p < n {
            proof {
                lemma_model_index(tokens@, n as int);
            }
            match &tokens[n] {
                Token::Punctuator(c) => {
                    if *c == '+' || *c == '-' {
                        let (right, m) = Self::assignment_expression(tokens, n + 1);
                        return (Node::new_additive_expression(*c, left, right), m);
                    }
                },
                _ => {},
            }
        }
        (left, n)
    }

    fn left_hand_side_expression(tokens: &Vec<Token>, p: usize) -> (r: Parsed)
        requires
            p <= tokens.len(),
        ensures
            agrees(r, left_hand_side_at(tokens_model(tokens@), p as int)),
            p <= r.1 <= tokens.len(),
            p < tokens.len() ==> p < r.1,
        decreases tokens.len() - p, 3nat,
    {
        let (expr, n) = Self::member_expression(tokens, p);
        if Self::is_punctuator(tokens, n, '(') && p < n {
            let (arguments, m) = Self::arguments(tokens, n + 1);
            (Node::new_call_expression(expr, arguments), m)
        } else {
            (expr, n)
        }
    }

    fn arguments(tokens: &Vec<Token>, start: usize) -> (r: ParsedList)
        requires
            start <= tokens.len(),
        ensures
            list_agrees(r, arguments_from(tokens_model(tokens@), start as int)),
            start <= r.1 <= tokens.len(),
        decreases tokens.len() - start, 6nat,
    {
        let mut arguments: Vec<Option<Box<Node>>> = Vec::new();
        let ghost ts = tokens_model(tokens@);
        assert(list_syntax(arguments@) =~= Seq::empty());
        let mut p: usize = start;
        let ghost goal = arguments_from(ts, start as int);
        while p < tokens.len()
            invariant
                start <= p <= tokens.len(),
                ts == tokens_model(tokens@),
                goal == arguments_from(ts, start as int),
                goal == (list_syntax(arguments@) + arguments_from(ts, p as int).0, arguments_from(
                    ts,
                    p as int,
                ).1),
            decreases tokens.len() - p,
        {
            let ghost so_far = list_syntax(arguments@);
            proof {
                lemma_model_index(tokens@, p as int);
            }
            match &tokens[p] {
                Token::Punctuator(c) => {
                    if *c == ')' {
                        assert(so_far + Seq::empty() =~= so_far);
                        return (arguments, p + 1);
                    }
                    if *c == ',' {
                        p += 1;
                    } else {
                        assert(so_far + Seq::empty() =~= so_far);
                        return (arguments, p);
                    }
                },
                _ => {
                    let (argument, n) = Self::assignment_expression(tokens, p);
                    proof {
                        lemma_list_push(arguments@, argument);
                        assert(so_far + (seq![child_syntax(argument)] + arguments_from(
                            ts,
                            n as int,
                        ).0) =~= so_far.push(child_syntax(argument)) + arguments_from(
                            ts,
                            n as int,
                        ).0);
                    }
                    arguments.push(argument);
                    p = n;
                },
            }
        }
        assert(list_syntax(arguments@) + Seq::empty() =~= list_syntax(arguments@));
        (arguments, p)
    }

    fn member_expression(tokens: &Vec<Token>, p: usize) -> (r: Parsed)
        requires
            p <= tokens.len(),
        ensures
            agrees(r, member_at(tokens_model(tokens@), p as int)),
            p <= r.1 <= tokens.len(),
            p < tokens.len() ==> p < r.1,
    {
        let (expr, n) = Self::primary_expression(tokens, p);
        if Self::is_punctuator(tokens, n, '.') {
            let (property, m) = Self::identifier(tokens, n + 1);
            (Node::new_member_expression(expr, property), m)
        } else {
            (expr, n)
        }
    }

    fn primary_expression(tokens: &Vec<Token>, p: usize) -> (r: Parsed)
        requires
            p <= tokens.len(),
        ensures
            agrees(r, primary_at(tokens_model(tokens@), p as int)),
            p <= r.1 <= tokens.len(),
            p < tokens.len() ==> r.1 == p + 1,
    {
        if p >= tokens.len() {
            return (None, p);
        }
        proof {
            lemma_model_index(tokens@, p as int);
        }
        match &tokens[p] {
            Token::Identifier(value) => (Node::new_identifier(value.clone()), p + 1),
            Token::StringLiteral(value) => (Node::new_string_literal(value.clone()), p + 1),
            Token::Number(value) => (Node::new_numeric_literal(*value), p + 1),
            _ => (None, p + 1),
        }
    }
}

} // verus!
