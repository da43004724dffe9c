//! The evaluation of a script against a document.
//!
//! A script reaches the document in two ways only: it can ask for the element
//! with a given id, and it can give such an element a text as its content.

use crate::renderer::dom::api::{
    find_by_id, get_element_by_id, lemma_with_text_content, set_text_content, with_text_content,
};
use crate::renderer::dom::node::{chain_model, is_content, Node as DomNode, NodeModel as DomModel};
use crate::renderer::js::ast::{
    body_syntax, child_syntax, lemma_list_index, lemma_list_len, list_syntax, syntax, Node,
    Program, Syntax,
};
use crate::text::str_is;
use vstd::prelude::*;
use vstd::string::StringExecFns;

verus! {

/// How deep calls of functions may nest. A call beyond that has no value.
pub const MAX_CALL_DEPTH: usize = 128;

/// A value that an expression can have.
///
/// An element of the document is held by its id, and with the property of it
/// that has been named, if any.
#[derive(Debug, PartialEq, Eq)]
pub enum RuntimeValue {
    Number(u64),
    StringLiteral(String),
    HtmlElement { object: String, property: Option<String> },
}

pub enum RuntimeValueModel {
    Number(u64),
    StringLiteral(Seq<char>),
    HtmlElement { object: Seq<char>, property: Option<Seq<char>> },
}

impl View for RuntimeValue {
    type V = RuntimeValueModel;

    open spec fn view(&self) -> RuntimeValueModel {
        match self {
            RuntimeValue::Number(n) => RuntimeValueModel::Number(*n),
            RuntimeValue::StringLiteral(s) => RuntimeValueModel::StringLiteral(s@),
            RuntimeValue::HtmlElement { object, property } => RuntimeValueModel::HtmlElement {
                object: object@,
                property: match property {
                    Some(p) => Some(p@),
                    None => None,
                },
            },
        }
    }
}

impl Clone for RuntimeValue {
    fn clone(&self) -> (r: Self)
        ensures
            r@ == self@,
    {
        match self {
            RuntimeValue::Number(n) => RuntimeValue::Number(*n),
            RuntimeValue::StringLiteral(s) => RuntimeValue::StringLiteral(s.clone()),
            RuntimeValue::HtmlElement { object, property } => RuntimeValue::HtmlElement {
                object: object.clone(),
                property: match property {
                    Some(p) => Some(p.clone()),
                    None => None,
                },
            },
        }
    }
}

/// The model of a value that may not be there.
pub open spec fn value_model(value: Option<RuntimeValue>) -> Option<RuntimeValueModel> {
    match value {
        Some(v) => Some(v@),
        None => None,
    }
}

/// The character of a decimal digit.
pub open spec fn digit_char(d: nat) -> char {
    ('0' as u8 + d as u8) as char
}

/// The decimal numeral of a number, without leading zeros.
pub open spec fn decimal(n: nat) -> Seq<char>
    decreases n,
{
    if n < 10 {
        seq![digit_char(n)]
    } else {
        decimal(n / 10).push(digit_char(n % 10))
    }
}

/// The decimal numeral of a number.
pub fn decimal_string(n: u64) -> (r: String)
    ensures
        r@ == decimal(n as nat),
    decreases n,
{
    if n < 10 {
        let mut s = String::new();
        s.push((48u8 + n as u8) as char);
        assert(s@ =~= seq![digit_char(n as nat)]);
        s
    } else {
        let mut s = decimal_string(n / 10);
        s.push((48u8 + (n % 10) as u8) as char);
        s
    }
}

impl RuntimeValueModel {
    /// The value as text: the numeral of a number, a text itself, and for an
    /// element a note of its id.
    pub open spec fn text(self) -> Seq<char> {
        match self {
            RuntimeValueModel::Number(n) => decimal(n as nat),
            RuntimeValueModel::StringLiteral(s) => s,
            RuntimeValueModel::HtmlElement { object, property } => "HtmlElement: "@ + object,
        }
    }

    /// The sum of two values: of two numbers their sum, or the greatest
    /// number where that does not fit 64 bits; of other values their texts,
    /// one after the other.
    pub open spec fn plus(self, rhs: RuntimeValueModel) -> RuntimeValueModel {
        match (self, rhs) {
            (
                RuntimeValueModel::Number(a),
                RuntimeValueModel::Number(b),
            ) => RuntimeValueModel::Number(
                if a + b <= u64::MAX {
                    (a + b) as u64
                } else {
                    u64::MAX
                },
            ),
            _ => RuntimeValueModel::StringLiteral(self.text() + rhs.text()),
        }
    }

    /// The difference of two values: of two numbers their difference, or 0
    /// where that is negative; 0 of other values.
    pub open spec fn minus(self, rhs: RuntimeValueModel) -> RuntimeValueModel {
        match (self, rhs) {
            (
                RuntimeValueModel::Number(a),
                RuntimeValueModel::Number(b),
            ) => RuntimeValueModel::Number(
                if a >= b {
                    (a - b) as u64
                } else {
                    0
                },
            ),
            _ => RuntimeValueModel::Number(0),
        }
    }
}

impl RuntimeValue {
    /// The value as text.
    pub fn to_string(&self) -> (r: String)
        ensures
            r@ == self@.text(),
    {
        match self {
            RuntimeValue::Number(value) => decimal_string(*value),
            RuntimeValue::StringLiteral(value) => value.clone(),
            RuntimeValue::HtmlElement { object, property } => {
                let mut s = String::from_str("HtmlElement: ");
                s.append(object.as_str());
                s
            },
        }
    }

    /// The sum of two values.
    pub fn add(self, rhs: RuntimeValue) -> (r: RuntimeValue)
        ensures
            r@ == self@.plus(rhs@),
    {
        match (&self, &rhs) {
            (RuntimeValue::Number(left_num), RuntimeValue::Number(right_num)) => {
                return RuntimeValue::Number(
                    match left_num.checked_add(*right_num) {
                        Some(sum) => sum,
                        None => u64::MAX,
                    },
                );
            },
            _ => {},
        }
        let mut s = self.to_string();
        let t = rhs.to_string();
        s.append(t.as_str());
        RuntimeValue::StringLiteral(s)
    }

    /// The difference of two values.
    pub fn sub(self, rhs: RuntimeValue) -> (r: RuntimeValue)
        ensures
            r@ == self@.minus(rhs@),
    {
        match (&self, &rhs) {
            (RuntimeValue::Number(left_num), RuntimeValue::Number(right_num)) => {
                return RuntimeValue::Number(
                    match left_num.checked_sub(*right_num) {
                        Some(difference) => difference,
                        None => 0,
                    },
                );
            },
            _ => {},
        }
        RuntimeValue::Number(u64::MIN)
    }
}

/// A function that a script has declared.
#[derive(Debug, PartialEq, Eq)]
pub struct Function {
    id: String,
    params: Vec<Option<Box<Node>>>,
    body: Option<Box<Node>>,
}

pub struct FunctionModel {
    pub id: Seq<char>,
    pub params: Seq<Option<Box<Syntax>>>,
    pub body: Option<Box<Syntax>>,
}

impl View for Function {
    type V = FunctionModel;

    closed spec fn view(&self) -> FunctionModel {
        FunctionModel {
            id: self.id@,
            params: list_syntax(self.params@),
            body: child_syntax(self.body),
        }
    }
}

impl Function {
    pub fn new(id: String, params: Vec<Option<Box<Node>>>, body: Option<Box<Node>>) -> (f: Self)
        ensures
            f@ == (FunctionModel {
                id: id@,
                params: list_syntax(params@),
                body: child_syntax(body),
            }),
    {
        Self { id, params, body }
    }

    fn duplicate(&self) -> (r: Self)
        ensures
            r@ == self@,
            r.params.len() == self.params.len(),
    {
        let params = copy_list(&self.params, 0);
        proof {
            lemma_list_len(self.params@);
            lemma_list_len(params@);
            assert(list_syntax(self.params@).subrange(0, self.params.len() as int) =~= list_syntax(
                self.params@,
            ));
        }
        Function { id: self.id.clone(), params, body: copy_child(&self.body) }
    }
}

/// A copy of a node.
fn copy_node(node: &Node) -> (r: Node)
    ensures
        r@ == node@,
    decreases *node, 0nat,
{
    match node {
        Node::ExpressionStatement(expression) => Node::ExpressionStatement(copy_child(expression)),
        Node::AdditiveExpression { operator, left, right } => Node::AdditiveExpression {
            operator: *operator,
            left: copy_child(left),
            right: copy_child(right),
        },
        Node::AssignmentExpression { operator, left, right } => Node::AssignmentExpression {
            operator: *operator,
            left: copy_child(left),
            right: copy_child(right),
        },
        Node::MemberExpression { object, property } => Node::MemberExpression {
            object: copy_child(object),
            property: copy_child(property),
        },
        Node::NumericLiteral(value) => Node::NumericLiteral(*value),
        Node::VariableDeclaration { declarations } => {
            let copies = copy_whole_list(declarations);
            Node::VariableDeclaration { declarations: copies }
        },
        Node::VariableDeclarator { id, init } => Node::VariableDeclarator {
            id: copy_child(id),
            init: copy_child(init),
        },
        Node::Identifier(name) => Node::Identifier(name.clone()),
        Node::StringLiteral(value) => Node::StringLiteral(value.clone()),
        Node::BlockStatement { body } => {
            let copies = copy_whole_list(body);
            Node::BlockStatement { body: copies }
        },
        Node::ReturnStatement { argument } => Node::ReturnStatement {
            argument: copy_child(argument),
        },
        Node::FunctionDeclaration { id, params, body } => {
            let copies = copy_whole_list(params);
            Node::FunctionDeclaration { id: copy_child(id), params: copies, body: copy_child(body) }
        },
        Node::CallExpression { callee, arguments } => {
            let copies = copy_whole_list(arguments);
            Node::CallExpression { callee: copy_child(callee), arguments: copies }
        },
    }
}

fn copy_child(child: &Option<Box<Node>>) -> (r: Option<Box<Node>>)
    ensures
        child_syntax(r) == child_syntax(*child),
    decreases *child, 0nat,
{
    match child {
        Some(n) => Some(Box::new(copy_node(n))),
        None => None,
    }
}

/// Copies of the nodes of a list.
fn copy_whole_list(list: &Vec<Option<Box<Node>>>) -> (r: Vec<Option<Box<Node>>>)
    ensures
        list_syntax(r@) == list_syntax(list@),
    decreases *list, list.len() + 1,
{
    let r = copy_list(list, 0);
    proof {
        lemma_list_len(list@);
        assert(list_syntax(list@).subrange(0, list.len() as int) =~= list_syntax(list@));
    }
    r
}

/// Copies of the nodes of a list from the index `from` on.
fn copy_list(list: &Vec<Option<Box<Node>>>, from: usize) -> (r: Vec<Option<Box<Node>>>)
    requires
        from <= list.len(),
    ensures
        list_syntax(r@) == list_syntax(list@).subrange(from as int, list.len() as int),
        r.len() == list.len() - from,
    decreases *list, list.len() - from,
{
    proof {
        lemma_list_len(list@);
    }
    if from >= list.len() {
        let r: Vec<Option<Box<Node>>> = Vec::new();
        assert(list_syntax(r@) =~= list_syntax(list@).subrange(from as int, list.len() as int));
        r
    } else {
        let first = copy_child(&list[from]);
        let mut rest = copy_list(list, from + 1);
        let ghost tail = rest@;
        rest.insert(0, first);
        proof {
            lemma_list_index(list@, from as int);
            lemma_list_len(rest@);
            lemma_list_len(tail);
            assert forall|i: int| 0 <= i < rest.len() implies list_syntax(rest@)[i] == list_syntax(
                list@,
            ).subrange(from as int, list.len() as int)[i] by {
                lemma_list_index(rest@, i);
                if i > 0 {
                    lemma_list_index(tail, i - 1);
                    assert(rest@[i] == tail[i - 1]);
                }
            }
            assert(list_syntax(rest@) =~= list_syntax(list@).subrange(
                from as int,
                list.len() as int,
            ));
        }
        rest
    }
}

type VariableMap = Vec<(String, Option<RuntimeValue>)>;

/// The variables of a scope and, around it, the scope in which it was
/// opened.
#[derive(Debug, PartialEq, Eq)]
pub struct Environment {
    variables: VariableMap,
    outer: Option<Box<Environment>>,
}

pub struct EnvironmentModel {
    pub variables: Seq<(Seq<char>, Option<RuntimeValueModel>)>,
    pub outer: Option<Box<EnvironmentModel>>,
}

pub open spec fn variables_model(variables: Seq<(String, Option<RuntimeValue>)>) -> Seq<
    (Seq<char>, Option<RuntimeValueModel>),
> {
    variables.map_values(|v: (String, Option<RuntimeValue>)| (v.0@, value_model(v.1)))
}

spec fn environment_model(environment: Environment) -> EnvironmentModel
    decreases environment,
{
    EnvironmentModel {
        variables: variables_model(environment.variables@),
        outer: match environment.outer {
            Some(o) => Some(Box::new(environment_model(*o))),
            None => None,
        },
    }
}

impl View for Environment {
    type V = EnvironmentModel;

    closed spec fn view(&self) -> EnvironmentModel {
        environment_model(*self)
    }
}

/// The first index at or after `from` of a variable with the given name, or
/// the number of variables if there is none.
pub open spec fn first_named(
    variables: Seq<(Seq<char>, Option<RuntimeValueModel>)>,
    name: Seq<char>,
    from: int,
) -> int
    decreases variables.len() - from,
{
    if 0 <= from < variables.len() && variables[from].0 != name {
        first_named(variables, name, from + 1)
    } else {
        from
    }
}

/// The value of a variable: that of the first variable with the name in the
/// innermost scope that has one.
pub open spec fn lookup(environment: EnvironmentModel, name: Seq<char>) -> Option<
    RuntimeValueModel,
>
    decreases environment,
{
    let i = first_named(environment.variables, name, 0);
    if 0 <= i < environment.variables.len() {
        environment.variables[i].1
    } else {
        match environment.outer {
            Some(o) => lookup(*o, name),
            None => None,
        }
    }
}

impl EnvironmentModel {
    /// The scope with one more variable.
    pub open spec fn with_variable(
        self,
        name: Seq<char>,
        value: Option<RuntimeValueModel>,
    ) -> EnvironmentModel {
        EnvironmentModel { variables: self.variables.push((name, value)), ..self }
    }

    /// The scope in which the first variable with the given name has a new
    /// value and stands behind the others; the scope itself where it has no
    /// such variable.
    pub open spec fn with_updated(
        self,
        name: Seq<char>,
        value: Option<RuntimeValueModel>,
    ) -> EnvironmentModel {
        let i = first_named(self.variables, name, 0);
        if 0 <= i < self.variables.len() {
            EnvironmentModel { variables: self.variables.remove(i).push((name, value)), ..self }
        } else {
            self
        }
    }

    /// A scope without variables inside this one.
    pub open spec fn entered(self) -> EnvironmentModel {
        EnvironmentModel { variables: Seq::empty(), outer: Some(Box::new(self)) }
    }

    /// The scope around this one, or a scope without variables where there
    /// is none.
    pub open spec fn left(self) -> EnvironmentModel {
        match self.outer {
            Some(o) => *o,
            None => EnvironmentModel { variables: Seq::empty(), outer: None },
        }
    }
}

impl Environment {
    /// A scope without variables inside the given one.
    pub fn new(outer: Option<Box<Environment>>) -> (e: Self)
        ensures
            e@ == (EnvironmentModel {
                variables: Seq::empty(),
                outer: match outer {
                    Some(o) => Some(Box::new(o@)),
                    None => None,
                },
            }),
    {
        let e = Self { variables: VariableMap::new(), outer };
        assert(variables_model(e.variables@) =~= Seq::empty());
        e
    }

    /// The index of the first variable with the given name.
    fn position(&self, name: &String) -> (i: usize)
        ensures
            i == first_named(self@.variables, name@, 0),
            i <= self.variables.len(),
            self@.variables.len() == self.variables.len(),
    {
        let ghost model = variables_model(self.variables@);
        let mut i: usize = 0;
        while i < self.variables.len()
            invariant
                i <= self.variables.len(),
                model == variables_model(self.variables@),
                first_named(model, name@, 0) == first_named(model, name@, i as int),
            decreases self.variables.len() - i,
        {
            assert(model[i as int].0 == self.variables[i as int].0@);
            if self.variables[i].0 == *name {
                return i;
            }
            i += 1;
        }
        i
    }

    /// The value of the variable with the given name.
    pub fn get_variable(&self, name: String) -> (r: Option<RuntimeValue>)
        ensures
            value_model(r) == lookup(self@, name@),
        decreases *self,
    {
        let i = self.position(&name);
        if i < self.variables.len() {
            assert(self@.variables[i as int].1 == value_model(self.variables[i as int].1));
            match &self.variables[i].1 {
                Some(v) => Some(v.clone()),
                None => None,
            }
        } else {
            match &self.outer {
                Some(env) => env.get_variable(name),
                None => None,
            }
        }
    }

    /// Adds a variable to the scope.
    pub fn add_variable(&mut self, name: String, value: Option<RuntimeValue>)
        ensures
            final(self)@ == old(self)@.with_variable(name@, value_model(value)),
    {
        self.variables.push((name, value));
        assert(variables_model(self.variables@) =~= variables_model(old(self).variables@).push(
            (name@, value_model(value)),
        ));
    }

    /// Gives the first variable of the scope with the given name a new
    /// value, and puts it behind the others. Nothing changes where the scope
    /// has no such variable.
    pub fn update_variable(&mut self, name: String, value: Option<RuntimeValue>)
        ensures
            final(self)@ == old(self)@.with_updated(name@, value_model(value)),
    {
        let i = self.position(&name);
        if i < self.variables.len() {
            let ghost before = variables_model(self.variables@);
            self.variables.remove(i);
            assert(variables_model(self.variables@) =~= before.remove(i as int));
            let ghost between = variables_model(self.variables@);
            self.variables.push((name, value));
            assert(variables_model(self.variables@) =~= between.push((name@, value_model(value))));
        }
    }

    /// Puts the scope inside a new one, and makes that the scope.
    fn enter(&mut self)
        ensures
            final(self)@ == old(self)@.entered(),
    {
        let mut outer = Environment::new(None);
        core::mem::swap(self, &mut outer);
        *self = Environment::new(Some(Box::new(outer)));
    }

    /// Makes the scope around this one the scope.
    fn leave(&mut self)
        ensures
            final(self)@ == old(self)@.left(),
    {
        let mut inner = Environment::new(None);
        core::mem::swap(self, &mut inner);
        match inner.outer {
            Some(outer) => {
                *self = *outer;
            },
            None => {},
        }
    }
}

/// Whether a document is still the same document after a script has run:
/// nothing but what is below it has changed, and that is content if it was.
pub open spec fn keeps_document(before: DomModel, after: DomModel) -> bool {
    after.kind == before.kind && after.next_sibling == before.next_sibling && (is_content(
        before.first_child,
    ) ==> is_content(after.first_child))
}

/// The state of a running script: the document, the variables and the
/// functions.
#[derive(Debug)]
pub struct JsRuntime {
    dom_root: DomNode,
    env: Environment,
    functions: Vec<Function>,
}

pub struct RuntimeModel {
    pub dom: DomModel,
    pub env: EnvironmentModel,
    pub functions: Seq<FunctionModel>,
}

pub open spec fn functions_model(functions: Seq<Function>) -> Seq<FunctionModel> {
    functions.map_values(|f: Function| f@)
}

impl View for JsRuntime {
    type V = RuntimeModel;

    closed spec fn view(&self) -> RuntimeModel {
        RuntimeModel {
            dom: self.dom_root@,
            env: self.env@,
            functions: functions_model(self.functions@),
        }
    }
}

/// What evaluating gives: the state after it, and the value, if there is
/// one.
pub type Evaluated = (RuntimeModel, Option<RuntimeValueModel>);

/// The function that was declared last under the given name.
pub open spec fn last_function(functions: Seq<FunctionModel>, name: Seq<char>) -> Option<
    FunctionModel,
>
    decreases functions.len(),
{
    if functions.len() == 0 {
        None
    } else if functions.last().id == name {
        Some(functions.last())
    } else {
        last_function(functions.drop_last(), name)
    }
}

/// The name that a node is, if it is one.
pub open spec fn assigned_name(target: Option<Box<Syntax>>) -> Option<Seq<char>> {
    match target {
        Some(node) => match *node {
            Syntax::Identifier(name) => Some(name),
            _ => None,
        },
        None => None,
    }
}

/// The name under which the document offers the query for an element.
pub open spec fn query_name() -> Seq<char> {
    "document.getElementById"@
}

/// The name of the property that holds the text of an element.
pub open spec fn text_property() -> Seq<char> {
    "textContent"@
}

impl RuntimeModel {
    /// The state with the first element of the given id holding the text.
    pub open spec fn with_text(self, id: Seq<char>, text: Seq<char>) -> RuntimeModel {
        RuntimeModel {
            dom: DomModel {
                first_child: with_text_content(self.dom.first_child, id, text),
                ..self.dom
            },
            ..self
        }
    }

    /// Evaluates a node that may not be there. One that is not has no value.
    pub open spec fn eval_child(self, child: Option<Box<Syntax>>, depth: nat) -> Evaluated
        decreases depth, child, 0nat,
    {
        match child {
            Some(n) => self.eval_syntax(*n, depth),
            None => (self, None),
        }
    }

    /// Evaluates the nodes of a list from the index `from` on, in order. The
    /// value is that of the last of them.
    pub open spec fn eval_list(
        self,
        list: Seq<Option<Box<Syntax>>>,
        from: int,
        depth: nat,
    ) -> Evaluated
        decreases depth, list, list.len() - from,
    {
        if 0 <= from < list.len() {
            let (after, first) = self.eval_child(list[from], depth);
            if from + 1 >= list.len() {
                (after, first)
            } else {
                after.eval_list(list, from + 1, depth)
            }
        } else {
            (self, None)
        }
    }

    /// Gives the parameters of a function the values of the arguments of a
    /// call, from the index `from` on. A parameter is a name; a name that is
    /// that of a variable already stands for the value of that variable, and
    /// gets no argument.
    pub open spec fn bind_arguments(
        self,
        params: Seq<Option<Box<Syntax>>>,
        arguments: Seq<Option<Box<Syntax>>>,
        from: int,
        depth: nat,
    ) -> RuntimeModel
        decreases depth, arguments, arguments.len() - from,
    {
        if 0 <= from < arguments.len() && from < params.len() && depth > 0 {
            let (named, name) = self.eval_child(params[from], (depth - 1) as nat);
            let bound = match name {
                Some(RuntimeValueModel::StringLiteral(name)) => {
                    let (valued, value) = named.eval_child(arguments[from], depth);
                    RuntimeModel { env: valued.env.with_variable(name, value), ..valued }
                },
                _ => named,
            };
            bound.bind_arguments(params, arguments, from + 1, depth)
        } else {
            self
        }
    }

    /// Calls what the document offers, if the name is that of such a thing.
    /// The second part of the result tells whether it is.
    ///
    /// The document offers one thing: the query for the element with a given
    /// id, whose value is that element, or nothing where there is none.
    pub open spec fn call_browser_api(
        self,
        func: RuntimeValueModel,
        arguments: Seq<Option<Box<Syntax>>>,
        depth: nat,
    ) -> (RuntimeModel, bool, Option<RuntimeValueModel>)
        decreases depth, arguments, arguments.len(),
    {
        if func == RuntimeValueModel::StringLiteral(query_name()) {
            if arguments.len() == 0 {
                (self, true, None)
            } else {
                let (after, argument) = self.eval_child(arguments[0], depth);
                match argument {
                    Some(a) => if find_by_id(after.dom.first_child, a.text()) is Some {
                        (
                            after,
                            true,
                            Some(
                                RuntimeValueModel::HtmlElement {
                                    object: a.text(),
                                    property: None,
                                },
                            ),
                        )
                    } else {
                        (after, true, None)
                    },
                    None => (after, true, None),
                }
            }
        } else {
            (self, false, None)
        }
    }

    /// Evaluates a call in the scope that has been opened for it: a call of
    /// what the document offers, or of the function that was declared last
    /// under the name. A call of nothing, and one with another number of
    /// arguments than the function has parameters, has no value.
    pub open spec fn call(
        self,
        callee: Option<Box<Syntax>>,
        arguments: Seq<Option<Box<Syntax>>>,
        depth: nat,
    ) -> Evaluated
        decreases depth, arguments, arguments.len() + 1,
    {
        if depth > 0 {
            let (after, callee_value) = self.eval_child(callee, (depth - 1) as nat);
            match callee_value {
                None => (after, None),
                Some(name) => {
                    let (asked, is_api, answer) = after.call_browser_api(name, arguments, depth);
                    if is_api {
                        (asked, answer)
                    } else {
                        match name {
                            RuntimeValueModel::StringLiteral(id) => match last_function(
                                asked.functions,
                                id,
                            ) {
                                Some(f) => if arguments.len() == f.params.len() {
                                    asked.bind_arguments(f.params, arguments, 0, depth).eval_child(
                                        f.body,
                                        (depth - 1) as nat,
                                    )
                                } else {
                                    (asked, None)
                                },
                                None => (asked, None),
                            },
                            _ => (asked, None),
                        }
                    }
                },
            }
        } else {
            (self, None)
        }
    }

    /// Evaluates a node.
    ///
    /// A literal has itself as its value. A name has the value of its
    /// variable, or is its own name where there is no such variable. A sum of
    /// two values and a difference of two values are as the values say; a part
    /// without a value leaves the whole without one. A declaration of a
    /// variable adds it to the scope, an assignment to a name gives the
    /// variable of that name a new value, and an assignment to the text of an
    /// element changes the document. A member of an element is the element
    /// with the property named; a member of something else is the two names
    /// with a point between them. A block has the value of its last
    /// statement. A declaration of a function adds it to the functions. A call
    /// opens a scope, and has no value where calls are nested too deep.
    pub open spec fn eval_syntax(self, node: Syntax, depth: nat) -> Evaluated
        decreases depth, node, 0nat,
    {
        match node {
            Syntax::ExpressionStatement(expression) => self.eval_child(expression, depth),
            Syntax::AdditiveExpression { operator, left, right } => {
                let (first, left_value) = self.eval_child(left, depth);
                match left_value {
                    None => (first, None),
                    Some(l) => {
                        let (second, right_value) = first.eval_child(right, depth);
                        match right_value {
                            None => (second, None),
                            Some(r) => (
                                second,
                                if operator == '+' {
                                    Some(l.plus(r))
                                } else if operator == '-' {
                                    Some(l.minus(r))
                                } else {
                                    None
                                },
                            ),
                        }
                    },
                }
            },
            Syntax::AssignmentExpression { operator, left, right } => {
                if operator != '=' {
                    (self, None)
                } else {
                    match assigned_name(left) {
                        Some(name) => {
                            let (after, value) = self.eval_child(right, depth);
                            (
                                RuntimeModel { env: after.env.with_updated(name, value), ..after },
                                None,
                            )
                        },
                        None => {
                            let (first, target) = self.eval_child(left, depth);
                            match target {
                                Some(RuntimeValueModel::HtmlElement { object, property }) => {
                                    let (second, value) = first.eval_child(right, depth);
                                    match value {
                                        None => (second, None),
                                        Some(v) => if property == Some(text_property()) {
                                            (second.with_text(object, v.text()), None)
                                        } else {
                                            (second, None)
                                        },
                                    }
                                },
                                _ => (first, None),
                            }
                        },
                    }
                }
            },
            Syntax::MemberExpression { object, property } => {
                let (first, object_value) = self.eval_child(object, depth);
                match object_value {
                    None => (first, None),
                    Some(o) => {
                        let (second, property_value) = first.eval_child(property, depth);
                        match property_value {
                            None => (second, Some(o)),
                            Some(p) => (
                                second,
                                Some(
                                    match o {
                                        RuntimeValueModel::HtmlElement {
                                            object,
                                            property,
                                        } => RuntimeValueModel::HtmlElement {
                                            object,
                                            property: Some(p.text()),
                                        },
                                        other => other.plus(
                                            RuntimeValueModel::StringLiteral("."@),
                                        ).plus(p),
                                    },
                                ),
                            ),
                        }
                    },
                }
            },
            Syntax::NumericLiteral(value) => (self, Some(RuntimeValueModel::Number(value))),
            Syntax::VariableDeclaration { declarations } => (
                self.eval_list(declarations, 0, depth).0,
                None,
            ),
            Syntax::VariableDeclarator { id, init } => match assigned_name(id) {
                Some(name) => {
                    let (after, value) = self.eval_child(init, depth);
                    (RuntimeModel { env: after.env.with_variable(name, value), ..after }, None)
                },
                None => (self, None),
            },
            Syntax::Identifier(name) => (
                self,
                Some(
                    match lookup(self.env, name) {
                        Some(v) => v,
                        None => RuntimeValueModel::StringLiteral(name),
                    },
                ),
            ),
            Syntax::StringLiteral(value) => (self, Some(RuntimeValueModel::StringLiteral(value))),
            Syntax::BlockStatement { statements } => self.eval_list(statements, 0, depth),
            Syntax::ReturnStatement { argument } => self.eval_child(argument, depth),
            Syntax::FunctionDeclaration { id, params, body } => {
                let (after, name) = self.eval_child(id, depth);
                match name {
                    Some(RuntimeValueModel::StringLiteral(name)) => (
                        RuntimeModel {
                            functions: after.functions.push(
                                FunctionModel { id: name, params, body },
                            ),
                            ..after
                        },
                        None,
                    ),
                    _ => (after, None),
                }
            },
            Syntax::CallExpression { callee, arguments } => {
                if depth == 0 {
                    (self, None)
                } else {
                    let inside = RuntimeModel { env: self.env.entered(), ..self };
                    let (after, value) = inside.call(callee, arguments, depth);
                    (RuntimeModel { env: after.env.left(), ..after }, value)
                }
            },
        }
    }

    /// The state after the statements of a script from the index `from` on
    /// have been evaluated in order.
    pub open spec fn run(self, body: Seq<Syntax>, from: int) -> RuntimeModel
        decreases body.len() - from,
    {
        if 0 <= from < body.len() {
            self.eval_syntax(body[from], MAX_CALL_DEPTH as nat).0.run(body, from + 1)
        } else {
            self
        }
    }
}

impl JsRuntime {
    /// A runtime on the given document, without variables and functions.
    pub fn new(dom_root: DomNode) -> (r: Self)
        ensures
            r@ == (RuntimeModel {
                dom: dom_root@,
                env: EnvironmentModel { variables: Seq::empty(), outer: None },
                functions: Seq::empty(),
            }),
    {
        let r = Self { dom_root, env: Environment::new(None), functions: Vec::new() };
        assert(functions_model(r.functions@) =~= Seq::empty());
        r
    }

    /// The document as the scripts that have run have left it.
    pub fn dom_root(&self) -> (r: &DomNode)
        ensures
            r@ == self@.dom,
    {
        &self.dom_root
    }

    /// Runs a script: evaluates its statements in order.
    pub fn execute(&mut self, program: &Program)
        ensures
            final(self)@ == old(self)@.run(body_syntax(program.body@), 0),
            keeps_document(old(self)@.dom, final(self)@.dom),
    {
        let mut i: usize = 0;
        let ghost body = body_syntax(program.body@);
        while i < program.body.len()
            invariant
                i <= program.body.len(),
                body == body_syntax(program.body@),
                keeps_document(old(self)@.dom, self@.dom),
                self@.run(body, i as int) == old(self)@.run(body, 0),
            decreases program.body.len() - i,
        {
            assert(body[i as int] == program.body[i as int]@);
            self.eval(&program.body[i]);
            i += 1;
        }
    }

    /// Evaluates one statement or expression.
    pub fn eval(&mut self, node: &Node) -> (r: Option<RuntimeValue>)
        ensures
            (final(self)@, value_model(r)) == old(self)@.eval_syntax(node@, MAX_CALL_DEPTH as nat),
            keeps_document(old(self)@.dom, final(self)@.dom),
    {
        self.eval_node(node, MAX_CALL_DEPTH)
    }

    fn eval_child(&mut self, child: &Option<Box<Node>>, depth: usize) -> (r: Option<RuntimeValue>)
        ensures
            (final(self)@, value_model(r)) == old(self)@.eval_child(
                child_syntax(*child),
                depth as nat,
            ),
            keeps_document(old(self)@.dom, final(self)@.dom),
        decreases depth, *child, 0nat,
    {
        match child {
            Some(n) => self.eval_node(n, depth),
            None => None,
        }
    }

    fn eval_list(&mut self, list: &Vec<Option<Box<Node>>>, from: usize, depth: usize) -> (r: Option<
        RuntimeValue,
    >)
        ensures
            (final(self)@, value_model(r)) == old(self)@.eval_list(
                list_syntax(list@),
                from as int,
                depth as nat,
            ),
            keeps_document(old(self)@.dom, final(self)@.dom),
        decreases depth, *list, list.len() - from,
    {
        proof {
            lemma_list_len(list@);
        }
        if from >= list.len() {
            None
        } else {
            proof {
                lemma_list_index(list@, from as int);
            }
            let first = self.eval_child(&list[from], depth);
            if from + 1 >= list.len() {
                first
            } else {
                self.eval_list(list, from + 1, depth)
            }
        }
    }

    /// The function that was declared last under the given name.
    fn find_function(&self, id: &String) -> (r: Option<Function>)
        ensures
            match last_function(self@.functions, id@) {
                Some(f) => r is Some && r->0@ == f,
                None => r is None,
            },
    {
        let mut found: Option<Function> = None;
        let ghost all = functions_model(self.functions@);
        let mut i: usize = 0;
        assert(all.take(0) =~= Seq::empty());
        while i < self.functions.len()
            invariant
                i <= self.functions.len(),
                all == functions_model(self.functions@),
                match last_function(all.take(i as int), id@) {
                    Some(f) => found is Some && found->0@ == f,
                    None => found is None,
                },
            decreases self.functions.len() - i,
        {
            proof {
                assert(all.take(i + 1).drop_last() =~= all.take(i as int));
                assert(all.take(i + 1).last() == self.functions[i as int]@);
            }
            if self.functions[i].id == *id {
                found = Some(self.functions[i].duplicate());
            }
            i += 1;
        }
        assert(all.take(i as int) =~= all);
        found
    }

    fn bind_arguments(
        &mut self,
        params: &Vec<Option<Box<Node>>>,
        arguments: &Vec<Option<Box<Node>>>,
        from: usize,
        depth: usize,
    )
        requires
            params.len() == arguments.len(),
            depth > 0,
        ensures
            final(self)@ == old(self)@.bind_arguments(
                list_syntax(params@),
                list_syntax(arguments@),
                from as int,
                depth as nat,
            ),
            keeps_document(old(self)@.dom, final(self)@.dom),
        decreases depth, *arguments, arguments.len() - from,
    {
        proof {
            lemma_list_len(params@);
            lemma_list_len(arguments@);
        }
        if from < arguments.len() {
            proof {
                lemma_list_index(params@, from as int);
                lemma_list_index(arguments@, from as int);
            }
            match self.eval_child(&params[from], (depth - 1) as usize) {
                Some(RuntimeValue::StringLiteral(name)) => {
                    let value = self.eval_child(&arguments[from], depth);
                    self.env.add_variable(name, value);
                },
                _ => {},
            }
            self.bind_arguments(params, arguments, from + 1, depth);
        }
    }

    fn eval_node(&mut self, node: &Node, depth: usize) -> (r: Option<RuntimeValue>)
        ensures
            (final(self)@, value_model(r)) == old(self)@.eval_syntax(node@, depth as nat),
            keeps_document(old(self)@.dom, final(self)@.dom),
        decreases depth, *node, 1nat,
    {
        match node {
            Node::ExpressionStatement(expr) => self.eval_child(expr, depth),
            Node::AdditiveExpression { operator, left, right } => {
                let left_value = match self.eval_child(left, depth) {
                    Some(value) => value,
                    None => {
                        return None;
                    },
                };
                let right_value = match self.eval_child(right, depth) {
                    Some(value) => value,
                    None => {
                        return None;
                    },
                };
                if *operator == '+' {
                    Some(left_value.add(right_value))
                } else if *operator == '-' {
                    Some(left_value.sub(right_value))
                } else {
                    None
                }
            },
            Node::AssignmentExpression { operator, left, right } => self.assign(node, depth),
            Node::MemberExpression { object, property } => {
                let object_value = match self.eval_child(object, depth) {
                    Some(value) => value,
                    None => {
                        return None;
                    },
                };
                let property_value = match self.eval_child(property, depth) {
                    Some(value) => value,
                    None => {
                        return Some(object_value);
                    },
                };
                match object_value {
                    RuntimeValue::HtmlElement { object, property } => Some(
                        RuntimeValue::HtmlElement {
                            object,
                            property: Some(property_value.to_string()),
                        },
                    ),
                    other => Some(
                        other.add(RuntimeValue::StringLiteral(String::from_str("."))).add(
                            property_value,
                        ),
                    ),
                }
            },
            Node::NumericLiteral(value) => Some(RuntimeValue::Number(*value)),
            Node::VariableDeclaration { declarations } => {
                self.eval_list(declarations, 0, depth);
                None
            },
            Node::VariableDeclarator { id, init } => {
                match id {
                    Some(target) => {
                        match &**target {
                            Node::Identifier(name) => {
                                assert(syntax(**target) == Syntax::Identifier(name@));
                                let value = self.eval_child(init, depth);
                                self.env.add_variable(name.clone(), value);
                            },
                            _ => {
                                assert(!(syntax(**target) is Identifier));
                            },
                        }
                    },
                    None => {},
                }
                None
            },
            Node::Identifier(name) => {
                match self.env.get_variable(name.clone()) {
                    Some(v) => Some(v),
                    None => Some(RuntimeValue::StringLiteral(name.clone())),
                }
            },
            Node::StringLiteral(value) => Some(RuntimeValue::StringLiteral(value.clone())),
            Node::BlockStatement { body } => self.eval_list(body, 0, depth),
            Node::ReturnStatement { argument } => self.eval_child(argument, depth),
            Node::FunctionDeclaration { id, params, body } => {
                match self.eval_child(id, depth) {
                    Some(RuntimeValue::StringLiteral(id)) => {
                        let ghost before = functions_model(self.functions@);
                        let function = Function::new(id, copy_whole_list(params), copy_child(body));
                        self.functions.push(function);
                        assert(functions_model(self.functions@) =~= before.push(function@));
                    },
                    _ => {},
                }
                None
            },
            Node::CallExpression { callee, arguments } => {
                if depth == 0 {
                    return None;
                }
                self.env.enter();
                let result = self.call(callee, arguments, depth);
                self.env.leave();
                result
            },
        }
    }

    /// Evaluates an assignment: to a variable, or to the text of an element.
    fn assign(&mut self, node: &Node, depth: usize) -> (r: Option<RuntimeValue>)
        requires
            *node is AssignmentExpression,
        ensures
            (final(self)@, value_model(r)) == old(self)@.eval_syntax(node@, depth as nat),
            keeps_document(old(self)@.dom, final(self)@.dom),
        decreases depth, *node, 0nat,
    {
        let (operator, left, right) = match node {
            Node::AssignmentExpression { operator, left, right } => (*operator, left, right),
            _ => {
                return None;
            },
        };
        if operator != '=' {
            return None;
        }
        match left {
            Some(target) => {
                match &**target {
                    Node::Identifier(id) => {
                        assert(syntax(**target) == Syntax::Identifier(id@));
                        let new_value = self.eval_child(right, depth);
                        self.env.update_variable(id.clone(), new_value);
                        return None;
                    },
                    _ => {
                        assert(!(syntax(**target) is Identifier));
                    },
                }
            },
            None => {},
        }
        match self.eval_child(left, depth) {
            Some(RuntimeValue::HtmlElement { object, property }) => {
                let right_value = match self.eval_child(right, depth) {
                    Some(value) => value,
                    None => {
                        return None;
                    },
                };
                match property {
                    Some(p) => {
                        if str_is(&p, "textContent") {
                            let text = right_value.to_string();
                            proof {
                                lemma_with_text_content(
                                    chain_model(self.dom_root.first_child),
                                    object@,
                                    text@,
                                );
                            }
                            set_text_content(&mut self.dom_root.first_child, &object, &text);
                        }
                    },
                    None => {},
                }
            },
            _ => {},
        }
        None
    }

    /// Evaluates a call in the scope that has been opened for it.
    fn call(
        &mut self,
        callee: &Option<Box<Node>>,
        arguments: &Vec<Option<Box<Node>>>,
        depth: usize,
    ) -> (r: Option<RuntimeValue>)
        requires
            depth > 0,
        ensures
            (final(self)@, value_model(r)) == old(self)@.call(
                child_syntax(*callee),
                list_syntax(arguments@),
                depth as nat,
            ),
            keeps_document(old(self)@.dom, final(self)@.dom),
        decreases depth, *arguments, arguments.len() + 1,
    {
        proof {
            lemma_list_len(arguments@);
        }
        let callee_value = match self.eval_child(callee, (depth - 1) as usize) {
            Some(value) => value,
            None => {
                return None;
            },
        };
        let api_result = self.call_browser_api(&callee_value, arguments, depth);
        if api_result.0 {
            return api_result.1;
        }
        let function = match &callee_value {
            RuntimeValue::StringLiteral(id) => match self.find_function(id) {
                Some(f) => f,
                None => {
                    return None;
                },
            },
            _ => {
                return None;
            },
        };
        proof {
            lemma_list_len(function.params@);
        }
        if arguments.len() != function.params.len() {
            return None;
        }
        self.bind_arguments(&function.params, arguments, 0, depth);
        self.eval_child(&function.body, (depth - 1) as usize)
    }

    /// Calls what the document offers, if the name is that of such a thing.
    /// The first part of the result tells whether it is; the second is the
    /// value of the call.
    fn call_browser_api(
        &mut self,
        func: &RuntimeValue,
        arguments: &Vec<Option<Box<Node>>>,
        depth: usize,
    ) -> (r: (bool, Option<RuntimeValue>))
        requires
            depth > 0,
        ensures
            (final(self)@, r.0, value_model(r.1)) == old(self)@.call_browser_api(
                func@,
                list_syntax(arguments@),
                depth as nat,
            ),
            keeps_document(old(self)@.dom, final(self)@.dom),
        decreases depth, *arguments, arguments.len(),
    {
        proof {
            lemma_list_len(arguments@);
        }
        let is_query = match func {
            RuntimeValue::StringLiteral(name) => str_is(name, "document.getElementById"),
            _ => false,
        };
        if is_query {
            if arguments.len() == 0 {
                return (true, None);
            }
            proof {
                lemma_list_index(arguments@, 0);
            }
            let arg = match self.eval_child(&arguments[0], depth) {
                Some(a) => a,
                None => {
                    return (true, None);
                },
            };
            let id = arg.to_string();
            if get_element_by_id(&self.dom_root.first_child, &id).is_some() {
                return (true, Some(RuntimeValue::HtmlElement { object: id, property: None }));
            }
            return (true, None);
        }
        (false, None)
    }
}

} // verus!
