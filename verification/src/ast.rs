//! The syntax tree of NX and its mathematical model.
//!
//! Every node owns its children. Each tree type has a view in which strings
//! are sequences of characters, vectors are sequences and machine integers are
//! integers; the parser's contracts are stated over these views.

use vstd::prelude::*;

verus! {

/// A literal value. A string is the text between the quotes of its literal.
#[derive(Debug, PartialEq, Eq)]
pub enum Literal {
    Integer(isize),
    String(String),
    Boolean(bool),
    Nil,
}

/// The model of a literal.
pub enum LiteralView {
    Integer(int),
    String(Seq<char>),
    Boolean(bool),
    Nil,
}

impl View for Literal {
    type V = LiteralView;

    open spec fn view(&self) -> LiteralView {
        match self {
            Literal::Integer(n) => LiteralView::Integer(*n as int),
            Literal::String(s) => LiteralView::String(s@),
            Literal::Boolean(b) => LiteralView::Boolean(*b),
            Literal::Nil => LiteralView::Nil,
        }
    }
}

/// The condition of a handler or of a guarded expression: an exact value or a
/// pattern, never both. A pattern is the text between the quotes of its string
/// literal.
#[derive(Debug, PartialEq, Eq)]
pub enum Guard {
    Numeric(isize),
    Pattern(String),
}

/// The model of a guard.
pub enum GuardView {
    Numeric(int),
    Pattern(Seq<char>),
}

impl View for Guard {
    type V = GuardView;

    open spec fn view(&self) -> GuardView {
        match self {
            Guard::Numeric(n) => GuardView::Numeric(*n as int),
            Guard::Pattern(s) => GuardView::Pattern(s@),
        }
    }
}

/// A call `name(arguments)`.
#[derive(Debug, PartialEq, Eq)]
pub struct FunctionCall {
    pub name: String,
    pub arguments: Vec<Box<Expression>>,
}

/// An expression. Every node owns its operands.
#[derive(Debug, PartialEq, Eq)]
pub enum Expression {
    Literal(Literal),
    Equal(Box<Expression>, Box<Expression>),
    NotEqual(Box<Expression>, Box<Expression>),
    Less(Box<Expression>, Box<Expression>),
    Greater(Box<Expression>, Box<Expression>),
    LessOrEqual(Box<Expression>, Box<Expression>),
    GreaterOrEqual(Box<Expression>, Box<Expression>),
    Sum(Box<Expression>, Box<Expression>),
    Minus(Box<Expression>, Box<Expression>),
    Multiply(Box<Expression>, Box<Expression>),
    Division(Box<Expression>, Box<Expression>),
    Modulus(Box<Expression>, Box<Expression>),
    Guard(Box<Expression>, Guard),
    Time(Box<Expression>, Box<Expression>),
    Pipe(Box<Expression>, FunctionCall),
    FunctionCall(FunctionCall),
}

/// The binary operators of comparison and arithmetic.
#[derive(Debug, Clone, Copy, PartialEq, Eq, Structural)]
pub enum BinaryOp {
    Equal,
    NotEqual,
    Less,
    Greater,
    LessOrEqual,
    GreaterOrEqual,
    Sum,
    Minus,
    Multiply,
    Division,
    Modulus,
}

/// The model of a call.
pub struct FunctionCallView {
    pub name: Seq<char>,
    pub arguments: Seq<ExpressionView>,
}

/// The model of an expression. The comparisons and the arithmetic operations
/// are one variant, told apart by their operator.
pub enum ExpressionView {
    Literal(LiteralView),
    Binary(BinaryOp, Box<ExpressionView>, Box<ExpressionView>),
    Guard(Box<ExpressionView>, GuardView),
    Time(Box<ExpressionView>, Box<ExpressionView>),
    Pipe(Box<ExpressionView>, FunctionCallView),
    Call(FunctionCallView),
}

/// The model of an expression.
pub open spec fn expression_view(e: Expression) -> ExpressionView
    decreases e,
{
    match e {
        Expression::Literal(l) => ExpressionView::Literal(l@),
        Expression::Equal(a, b) => binary_view(
            BinaryOp::Equal,
            expression_view(*a),
            expression_view(*b),
        ),
        Expression::NotEqual(a, b) => binary_view(
            BinaryOp::NotEqual,
            expression_view(*a),
            expression_view(*b),
        ),
        Expression::Less(a, b) => binary_view(
            BinaryOp::Less,
            expression_view(*a),
            expression_view(*b),
        ),
        Expression::Greater(a, b) => binary_view(
            BinaryOp::Greater,
            expression_view(*a),
            expression_view(*b),
        ),
        Expression::LessOrEqual(a, b) => binary_view(
            BinaryOp::LessOrEqual,
            expression_view(*a),
            expression_view(*b),
        ),
        Expression::GreaterOrEqual(a, b) => binary_view(
            BinaryOp::GreaterOrEqual,
            expression_view(*a),
            expression_view(*b),
        ),
        Expression::Sum(a, b) => binary_view(
            BinaryOp::Sum,
            expression_view(*a),
            expression_view(*b),
        ),
        Expression::Minus(a, b) => binary_view(
            BinaryOp::Minus,
            expression_view(*a),
            expression_view(*b),
        ),
        Expression::Multiply(a, b) => binary_view(
            BinaryOp::Multiply,
            expression_view(*a),
            expression_view(*b),
        ),
        Expression::Division(a, b) => binary_view(
            BinaryOp::Division,
            expression_view(*a),
            expression_view(*b),
        ),
        Expression::Modulus(a, b) => binary_view(
            BinaryOp::Modulus,
            expression_view(*a),
            expression_view(*b),
        ),
        Expression::Guard(e, g) => ExpressionView::Guard(Box::new(expression_view(*e)), g@),
        Expression::Time(a, b) => ExpressionView::Time(
            Box::new(expression_view(*a)),
            Box::new(expression_view(*b)),
        ),
        Expression::Pipe(e, call) => ExpressionView::Pipe(
            Box::new(expression_view(*e)),
            call_view(call),
        ),
        Expression::FunctionCall(call) => ExpressionView::Call(call_view(call)),
    }
}

/// The model of a binary node whose operands have the models `left` and `right`.
pub open spec fn binary_view(
    op: BinaryOp,
    left: ExpressionView,
    right: ExpressionView,
) -> ExpressionView {
    ExpressionView::Binary(op, Box::new(left), Box::new(right))
}

/// The model of a call: its name and the models of its arguments.
pub open spec fn call_view(call: FunctionCall) -> FunctionCallView
    decreases call,
{
    FunctionCallView { name: call.name@, arguments: arguments_view(call.arguments@) }
}

/// The models of the expressions of `arguments`, in order.
pub open spec fn arguments_view(arguments: Seq<Box<Expression>>) -> Seq<ExpressionView>
    decreases arguments,
{
    Seq::new(
        arguments.len(),
        |i: int|
            if 0 <= i < arguments.len() {
                expression_view(*arguments[i])
            } else {
                arbitrary()
            },
    )
}

/// The arguments with one more are the models with one more.
pub proof fn lemma_arguments_push(arguments: Seq<Box<Expression>>, last: Box<Expression>)
    ensures
        arguments_view(arguments.push(last)) == arguments_view(arguments).push(
            expression_view(*last),
        ),
{
    assert(arguments_view(arguments.push(last)) =~= arguments_view(arguments).push(
        expression_view(*last),
    ));
}

impl View for Expression {
    type V = ExpressionView;

    open spec fn view(&self) -> ExpressionView {
        expression_view(*self)
    }
}

impl View for FunctionCall {
    type V = FunctionCallView;

    open spec fn view(&self) -> FunctionCallView {
        call_view(*self)
    }
}

/// A statement of a block.
#[derive(Debug, PartialEq, Eq)]
pub enum Statement {
    Assignment { variable: String, expression: Expression },
    AssignmentSum { variable: String, expression: Expression },
    AssignmentMinus { variable: String, expression: Expression },
    AssignmentMult { variable: String, expression: Expression },
    AssignmentDiv { variable: String, expression: Expression },
    AssignmentMod { variable: String, expression: Expression },
    Delay { time: usize },
    Store { var_list: Vec<String> },
    If {
        condition: Expression,
        body: Vec<Statement>,
        elif: Vec<(Expression, Vec<Statement>)>,
        else_body: Vec<Statement>,
    },
    For { var: String, collection: String, body: Vec<Statement> },
    While { condition: Expression, body: Vec<Statement> },
    Match { target: Expression, cases: Vec<(Literal, Vec<Statement>)>, default: Vec<Statement> },
    Return { expression: Expression },
    FunctionCall(FunctionCall),
}

/// Plain assignment and its five compound forms.
#[derive(Debug, Clone, Copy, PartialEq, Eq, Structural)]
pub enum AssignOp {
    Plain,
    Sum,
    Minus,
    Mult,
    Div,
    Mod,
}

/// The model of a statement. The six assignments are one variant, told apart
/// by their operator.
pub enum StatementView {
    Assign { op: AssignOp, variable: Seq<char>, expression: ExpressionView },
    Delay { time: nat },
    Store { var_list: Seq<Seq<char>> },
    If {
        condition: ExpressionView,
        body: Seq<StatementView>,
        elif: Seq<(ExpressionView, Seq<StatementView>)>,
        else_body: Seq<StatementView>,
    },
    For { var: Seq<char>, collection: Seq<char>, body: Seq<StatementView> },
    While { condition: ExpressionView, body: Seq<StatementView> },
    Match {
        target: ExpressionView,
        cases: Seq<(LiteralView, Seq<StatementView>)>,
        default: Seq<StatementView>,
    },
    Return { expression: ExpressionView },
    Call(FunctionCallView),
}

/// The names of `names` as sequences of characters, in order.
pub open spec fn names_view(names: Seq<String>) -> Seq<Seq<char>> {
    Seq::new(names.len(), |i: int| names[i]@)
}

/// The model of a statement.
pub open spec fn statement_view(s: Statement) -> StatementView
    decreases s,
{
    match s {
        Statement::Assignment { variable, expression } => StatementView::Assign {
            op: AssignOp::Plain,
            variable: variable@,
            expression: expression@,
        },
        Statement::AssignmentSum { variable, expression } => StatementView::Assign {
            op: AssignOp::Sum,
            variable: variable@,
            expression: expression@,
        },
        Statement::AssignmentMinus { variable, expression } => StatementView::Assign {
            op: AssignOp::Minus,
            variable: variable@,
            expression: expression@,
        },
        Statement::AssignmentMult { variable, expression } => StatementView::Assign {
            op: AssignOp::Mult,
            variable: variable@,
            expression: expression@,
        },
        Statement::AssignmentDiv { variable, expression } => StatementView::Assign {
            op: AssignOp::Div,
            variable: variable@,
            expression: expression@,
        },
        Statement::AssignmentMod { variable, expression } => StatementView::Assign {
            op: AssignOp::Mod,
            variable: variable@,
            expression: expression@,
        },
        Statement::Delay { time } => StatementView::Delay { time: time as nat },
        Statement::Store { var_list } => StatementView::Store { var_list: names_view(var_list@) },
        Statement::If { condition, body, elif, else_body } => StatementView::If {
            condition: condition@,
            body: statements_view(body@),
            elif: branches_view(elif@),
            else_body: statements_view(else_body@),
        },
        Statement::For { var, collection, body } => StatementView::For {
            var: var@,
            collection: collection@,
            body: statements_view(body@),
        },
        Statement::While { condition, body } => StatementView::While {
            condition: condition@,
            body: statements_view(body@),
        },
        Statement::Match { target, cases, default } => StatementView::Match {
            target: target@,
            cases: cases_view(cases@),
            default: statements_view(default@),
        },
        Statement::Return { expression } => StatementView::Return { expression: expression@ },
        Statement::FunctionCall(call) => StatementView::Call(call@),
    }
}

/// The models of the statements of `statements`, in order.
pub open spec fn statements_view(statements: Seq<Statement>) -> Seq<StatementView>
    decreases statements,
{
    Seq::new(
        statements.len(),
        |i: int|
            if 0 <= i < statements.len() {
                statement_view(statements[i])
            } else {
                arbitrary()
            },
    )
}

/// The models of the `elif` branches of an `if`, in order.
pub open spec fn branches_view(branches: Seq<(Expression, Vec<Statement>)>) -> Seq<
    (ExpressionView, Seq<StatementView>),
>
    decreases branches,
{
    Seq::new(
        branches.len(),
        |i: int|
            if 0 <= i < branches.len() {
                (branches[i].0@, statements_view(branches[i].1@))
            } else {
                arbitrary()
            },
    )
}

/// The models of the cases of a `match`, in order.
pub open spec fn cases_view(cases: Seq<(Literal, Vec<Statement>)>) -> Seq<
    (LiteralView, Seq<StatementView>),
>
    decreases cases,
{
    Seq::new(
        cases.len(),
        |i: int|
            if 0 <= i < cases.len() {
                (cases[i].0@, statements_view(cases[i].1@))
            } else {
                arbitrary()
            },
    )
}

/// The names with one more are the models with one more.
pub proof fn lemma_names_push(names: Seq<String>, last: String)
    ensures
        names_view(names.push(last)) == names_view(names).push(last@),
{
    assert(names_view(names.push(last)) =~= names_view(names).push(last@));
}

/// The statements with one more are the models with one more.
pub proof fn lemma_statements_push(statements: Seq<Statement>, last: Statement)
    ensures
        statements_view(statements.push(last)) == statements_view(statements).push(
            statement_view(last),
        ),
{
    assert(statements_view(statements.push(last)) =~= statements_view(statements).push(
        statement_view(last),
    ));
}

/// The branches with one more are the models with one more.
pub proof fn lemma_branches_push(
    branches: Seq<(Expression, Vec<Statement>)>,
    last: (Expression, Vec<Statement>),
)
    ensures
        branches_view(branches.push(last)) == branches_view(branches).push(
            (last.0@, statements_view(last.1@)),
        ),
{
    assert(branches_view(branches.push(last)) =~= branches_view(branches).push(
        (last.0@, statements_view(last.1@)),
    ));
}

/// The cases with one more are the models with one more.
pub proof fn lemma_cases_push(
    cases: Seq<(Literal, Vec<Statement>)>,
    last: (Literal, Vec<Statement>),
)
    ensures
        cases_view(cases.push(last)) == cases_view(cases).push(
            (last.0@, statements_view(last.1@)),
        ),
{
    assert(cases_view(cases.push(last)) =~= cases_view(cases).push(
        (last.0@, statements_view(last.1@)),
    ));
}

impl View for Statement {
    type V = StatementView;

    open spec fn view(&self) -> StatementView {
        statement_view(*self)
    }
}

/// A top-level declaration.
#[derive(Debug, PartialEq, Eq)]
pub enum AST {
    Function { name: String, arguments: Vec<String>, body: Vec<Statement> },
    Record { name: String, length: usize, data_size: usize },
    Task { name: String, interval_ms: usize, body: Vec<Statement> },
    When { interface: String, packet: String, guard: Guard, body: Vec<Statement> },
}

/// The model of a declaration.
pub enum AstView {
    Function { name: Seq<char>, arguments: Seq<Seq<char>>, body: Seq<StatementView> },
    Record { name: Seq<char>, length: nat, data_size: nat },
    Task { name: Seq<char>, interval_ms: nat, body: Seq<StatementView> },
    When { interface: Seq<char>, packet: Seq<char>, guard: GuardView, body: Seq<StatementView> },
}

impl View for AST {
    type V = AstView;

    open spec fn view(&self) -> AstView {
        match self {
            AST::Function { name, arguments, body } => AstView::Function {
                name: name@,
                arguments: names_view(arguments@),
                body: statements_view(body@),
            },
            AST::Record { name, length, data_size } => AstView::Record {
                name: name@,
                length: *length as nat,
                data_size: *data_size as nat,
            },
            AST::Task { name, interval_ms, body } => AstView::Task {
                name: name@,
                interval_ms: *interval_ms as nat,
                body: statements_view(body@),
            },
            AST::When { interface, packet, guard, body } => AstView::When {
                interface: interface@,
                packet: packet@,
                guard: guard@,
                body: statements_view(body@),
            },
        }
    }
}

/// The models of the declarations of `declarations`, in order.
pub open spec fn declarations_view(declarations: Seq<AST>) -> Seq<AstView> {
    Seq::new(declarations.len(), |i: int| declarations[i]@)
}

/// The declarations with one more are the models with one more.
pub proof fn lemma_declarations_push(declarations: Seq<AST>, last: AST)
    ensures
        declarations_view(declarations.push(last)) == declarations_view(declarations).push(last@),
{
    assert(declarations_view(declarations.push(last)) =~= declarations_view(declarations).push(
        last@,
    ));
}

// ---------------------------------------------------------------------------
// Models
// ---------------------------------------------------------------------------
/// What the parser builds, and what it stands for in contracts: a tree stands
/// for its view, a vector of trees for the sequence of their views, a machine
/// integer for its value.
pub trait Model {
    type M;

    spec fn model(&self) -> Self::M;
}

impl Model for isize {
    type M = int;

    open spec fn model(&self) -> int {
        *self as int
    }
}

impl Model for usize {
    type M = nat;

    open spec fn model(&self) -> nat {
        *self as nat
    }
}

impl Model for (usize, usize) {
    type M = (nat, nat);

    open spec fn model(&self) -> (nat, nat) {
        (self.0 as nat, self.1 as nat)
    }
}

impl Model for String {
    type M = Seq<char>;

    open spec fn model(&self) -> Seq<char> {
        self@
    }
}

impl Model for Vec<String> {
    type M = Seq<Seq<char>>;

    open spec fn model(&self) -> Seq<Seq<char>> {
        names_view(self@)
    }
}

impl Model for Literal {
    type M = LiteralView;

    open spec fn model(&self) -> LiteralView {
        self@
    }
}

impl Model for Guard {
    type M = GuardView;

    open spec fn model(&self) -> GuardView {
        self@
    }
}

impl Model for Expression {
    type M = ExpressionView;

    open spec fn model(&self) -> ExpressionView {
        expression_view(*self)
    }
}

impl Model for FunctionCall {
    type M = FunctionCallView;

    open spec fn model(&self) -> FunctionCallView {
        call_view(*self)
    }
}

impl Model for Vec<Box<Expression>> {
    type M = Seq<ExpressionView>;

    open spec fn model(&self) -> Seq<ExpressionView> {
        arguments_view(self@)
    }
}

impl Model for Statement {
    type M = StatementView;

    open spec fn model(&self) -> StatementView {
        statement_view(*self)
    }
}

impl Model for Vec<Statement> {
    type M = Seq<StatementView>;

    open spec fn model(&self) -> Seq<StatementView> {
        statements_view(self@)
    }
}

impl Model for Vec<(Expression, Vec<Statement>)> {
    type M = Seq<(ExpressionView, Seq<StatementView>)>;

    open spec fn model(&self) -> Seq<(ExpressionView, Seq<StatementView>)> {
        branches_view(self@)
    }
}

impl Model for Vec<(Literal, Vec<Statement>)> {
    type M = Seq<(LiteralView, Seq<StatementView>)>;

    open spec fn model(&self) -> Seq<(LiteralView, Seq<StatementView>)> {
        cases_view(self@)
    }
}

impl Model for AST {
    type M = AstView;

    open spec fn model(&self) -> AstView {
        self@
    }
}

impl Model for Vec<AST> {
    type M = Seq<AstView>;

    open spec fn model(&self) -> Seq<AstView> {
        declarations_view(self@)
    }
}

} // verus!
