//! The syntax tree: expressions, statements, blocks and programs, with their
//! canonical rendering as text.

use crate::text::{bool_text, bool_to_str, int_text, int_to_string};
use vstd::prelude::*;

verus! {

pub type Identifier = String;

pub type Operator = String;

pub type BlockStatement = Vec<Statement>;

pub type Statements = Vec<Statement>;

/// The mathematical model of an expression.
pub enum Expr {
    /// A name that stands for whatever the environment binds it to.
    Literal(Seq<char>),
    Int(i64),
    Prefix(Seq<char>, Box<Expr>),
    Infix(Box<Expr>, Seq<char>, Box<Expr>),
    Boolean(bool),
    If(Box<Expr>, Seq<Stmt>, Option<Seq<Stmt>>),
}

/// The mathematical model of a statement.
pub enum Stmt {
    Let(Seq<char>, Expr),
    Return(Expr),
    Expression(Expr),
}

impl Expr {
    /// The canonical rendering: every prefix and infix operation stands in
    /// its own pair of brackets.
    pub open spec fn text(self) -> Seq<char>
        decreases self,
    {
        match self {
            Expr::Literal(name) => name,
            Expr::Int(value) => int_text(value as int),
            Expr::Boolean(value) => bool_text(value),
            Expr::Prefix(operator, right) => "("@ + operator + right.text() + ")"@,
            Expr::Infix(left, operator, right) => "("@ + left.text() + " "@ + operator + " "@
                + right.text() + ")"@,
            Expr::If(condition, consequence, alternative) => "if "@ + condition.text()
                + block_text(consequence) + match alternative {
                Some(block) => "else "@ + block_text(block),
                None => Seq::<char>::empty(),
            },
        }
    }
}

impl Stmt {
    /// The canonical rendering of a statement.
    pub open spec fn text(self) -> Seq<char>
        decreases self,
    {
        match self {
            Stmt::Let(name, value) => "let "@ + name + " = "@ + value.text() + ";"@,
            Stmt::Return(value) => "return "@ + value.text(),
            Stmt::Expression(value) => value.text(),
        }
    }
}

/// The renderings of the statements of a block, one after the other with
/// nothing between them.
pub open spec fn block_text(block: Seq<Stmt>) -> Seq<char>
    decreases block,
{
    if block.len() == 0 {
        Seq::<char>::empty()
    } else {
        block_text(block.drop_last()) + block.last().text()
    }
}

/// Rendering the first `i + 1` statements adds the rendering of statement
/// `i` to that of the first `i`.
pub proof fn lemma_block_text_step(block: Seq<Stmt>, i: int)
    requires
        0 <= i < block.len(),
    ensures
        block_text(block.take(i + 1)) == block_text(block.take(i)) + block[i].text(),
{
    assert(block.take(i + 1).drop_last() =~= block.take(i));
}

/// An expression.
pub enum Expression {
    Literal(String),
    Int(i64),
    Prefix(Operator, Box<Expression>),
    Infix(Box<Expression>, Operator, Box<Expression>),
    Boolean(bool),
    If(Box<Expression>, BlockStatement, Option<BlockStatement>),
}

/// A statement.
pub enum Statement {
    Let(Identifier, Expression),
    Return(Expression),
    Expression(Expression),
}

/// The model of an expression.
pub open spec fn expr_view(expression: &Expression) -> Expr
    decreases expression,
{
    match expression {
        Expression::Literal(name) => Expr::Literal(name@),
        Expression::Int(value) => Expr::Int(*value),
        Expression::Prefix(operator, right) => Expr::Prefix(operator@, Box::new(expr_view(right))),
        Expression::Infix(left, operator, right) => Expr::Infix(
            Box::new(expr_view(left)),
            operator@,
            Box::new(expr_view(right)),
        ),
        Expression::Boolean(value) => Expr::Boolean(*value),
        Expression::If(condition, consequence, alternative) => Expr::If(
            Box::new(expr_view(condition)),
            block_view(consequence),
            match alternative {
                Some(block) => Some(block_view(block)),
                None => None,
            },
        ),
    }
}

/// The model of a statement.
pub open spec fn stmt_view(statement: &Statement) -> Stmt
    decreases statement,
{
    match statement {
        Statement::Let(name, value) => Stmt::Let(name@, expr_view(value)),
        Statement::Return(value) => Stmt::Return(expr_view(value)),
        Statement::Expression(value) => Stmt::Expression(expr_view(value)),
    }
}

/// The model of a block: the models of its statements, in order.
pub open spec fn block_view(block: &Vec<Statement>) -> Seq<Stmt>
    decreases block,
{
    Seq::new(
        block.len() as nat,
        |i: int|
            if 0 <= i < block.len() {
                stmt_view(&block[i])
            } else {
                arbitrary()
            },
    )
}

impl View for Expression {
    type V = Expr;

    open spec fn view(&self) -> Expr {
        expr_view(self)
    }
}

impl View for Statement {
    type V = Stmt;

    open spec fn view(&self) -> Stmt {
        stmt_view(self)
    }
}

/// Appends the rendering of `block` to `out`.
fn push_block_text(out: &mut String, block: &Vec<Statement>)
    ensures
        final(out)@ == old(out)@ + block_text(block_view(block)),
    decreases block, 0nat,
{
    let ghost model = block_view(block);
    let mut i: usize = 0;
    while i < block.len()
        invariant
            i <= block.len(),
            model == block_view(block),
            out@ == old(out)@ + block_text(model.take(i as int)),
        decreases block.len() - i,
    {
        let rendered = block[i].to_string();
        proof {
            lemma_block_text_step(model, i as int);
            assert(old(out)@ + block_text(model.take(i as int)) + model[i as int].text() =~= old(
                out,
            )@ + block_text(model.take(i + 1)));
        }
        out.append(rendered.as_str());
        i += 1;
    }
    assert(model.take(block.len() as int) =~= model);
}

impl Expression {
    /// The canonical rendering of the expression.
    pub fn to_string(&self) -> (s: String)
        ensures
            s@ == self@.text(),
        decreases self, 1nat,
    {
        match self {
            Expression::Literal(name) => name.clone(),
            Expression::Int(value) => int_to_string(*value),
            Expression::Boolean(value) => String::from_str(bool_to_str(*value)),
            Expression::Prefix(operator, right) => {
                let mut s = String::from_str("(");
                s.append(operator.as_str());
                s.append(right.to_string().as_str());
                s.append(")");
                s
            },
            Expression::Infix(left, operator, right) => {
                let mut s = String::from_str("(");
                s.append(left.to_string().as_str());
                s.append(" ");
                s.append(operator.as_str());
                s.append(" ");
                s.append(right.to_string().as_str());
                s.append(")");
                s
            },
            Expression::If(condition, consequence, alternative) => {
                let mut s = String::from_str("if ");
                s.append(condition.to_string().as_str());
                push_block_text(&mut s, consequence);
                match alternative {
                    Some(block) => {
                        let ghost before = s@;
                        s.append("else ");
                        push_block_text(&mut s, block);
                        assert(s@ =~= before + ("else "@ + block_text(block_view(block))));
                    },
                    None => {
                        assert(s@ =~= s@ + Seq::<char>::empty());
                    },
                }
                s
            },
        }
    }
}

impl Statement {
    /// The canonical rendering of the statement.
    pub fn to_string(&self) -> (s: String)
        ensures
            s@ == self@.text(),
        decreases self, 2nat,
    {
        match self {
            Statement::Let(name, value) => {
                let mut s = String::from_str("let ");
                s.append(name.as_str());
                s.append(" = ");
                s.append(value.to_string().as_str());
                s.append(";");
                s
            },
            Statement::Return(value) => {
                let mut s = String::from_str("return ");
                s.append(value.to_string().as_str());
                s
            },
            Statement::Expression(value) => value.to_string(),
        }
    }
}

/// A program: its top-level statements, in order.
pub struct Program(Statements);

impl View for Program {
    type V = Seq<Stmt>;

    closed spec fn view(&self) -> Seq<Stmt> {
        block_view(&self.0)
    }
}

impl Program {
    /// The program without statements.
    pub fn new() -> (program: Program)
        ensures
            program@ == Seq::<Stmt>::empty(),
    {
        let program = Program(Vec::new());
        assert(program@ =~= Seq::<Stmt>::empty());
        program
    }

    /// All statements, in order.
    pub fn all(&self) -> (statements: &Statements)
        ensures
            block_view(statements) == self@,
    {
        &self.0
    }

    /// Statement number `i`, counted from zero.
    pub fn get(&self, i: usize) -> (statement: &Statement)
        requires
            i < self@.len(),
        ensures
            statement@ == self@[i as int],
    {
        &self.0[i]
    }

    /// Adds `s` behind the last statement.
    pub fn push(&mut self, s: Statement)
        ensures
            final(self)@ == old(self)@.push(s@),
    {
        self.0.push(s);
        assert(self@ =~= old(self)@.push(s@));
    }

    /// The number of statements.
    pub fn len(&self) -> (n: usize)
        ensures
            n == self@.len(),
    {
        self.0.len()
    }

    /// The canonical rendering of the program: the renderings of its
    /// statements, one after the other with nothing between them.
    pub fn to_string(&self) -> (s: String)
        ensures
            s@ == block_text(self@),
    {
        let mut s = String::new();
        push_block_text(&mut s, &self.0);
        assert(s@ =~= block_text(self@));
        s
    }
}

} // verus!
