//! The grammar, as a function from a sequence of tokens to syntax trees.
//!
//! Each function reads the tokens from a position on and says what it
//! found there, how far it went and which errors it met. Reading
//! never fails as a whole: a construct that cannot be read yields no node
//! and an error message, and reading goes on behind it.

use crate::ast::{Expr, Stmt};
use crate::token::Tok;
use vstd::prelude::*;

verus! {

/// How strongly an operator binds, from the weakest to the strongest.
#[derive(Clone, Copy, Debug, PartialEq, Eq)]
pub enum Precedence {
    Lowest,
    /// `==` and `!=`
    Equals,
    /// `<` and `>`
    LessGreater,
    /// `+` and `-`
    Sum,
    /// `*` and `/`
    Product,
    /// A prefix `-` or `!`
    Prefix,
    /// A call; no construct of the language has this precedence yet.
    Call,
}

impl Precedence {
    /// The rank of the precedence: the higher, the stronger.
    pub open spec fn rank(self) -> nat {
        match self {
            Precedence::Lowest => 0,
            Precedence::Equals => 1,
            Precedence::LessGreater => 2,
            Precedence::Sum => 3,
            Precedence::Product => 4,
            Precedence::Prefix => 5,
            Precedence::Call => 6,
        }
    }
}

impl Precedence {
    /// The rank of the precedence: the higher, the stronger.
    pub fn level(&self) -> (r: u8)
        ensures
            r == self.rank(),
    {
        match self {
            Precedence::Lowest => 0,
            Precedence::Equals => 1,
            Precedence::LessGreater => 2,
            Precedence::Sum => 3,
            Precedence::Product => 4,
            Precedence::Prefix => 5,
            Precedence::Call => 6,
        }
    }
}

/// The precedence of a token as an infix operator; `Lowest` for a token
/// that is none.
pub open spec fn precedence_of(token: Tok) -> Precedence {
    match token {
        Tok::Eq | Tok::NotEq => Precedence::Equals,
        Tok::Lt | Tok::Gt => Precedence::LessGreater,
        Tok::Plus | Tok::Minus => Precedence::Sum,
        Tok::Slash | Tok::Asterisk => Precedence::Product,
        _ => Precedence::Lowest,
    }
}

/// Token number `k`; behind the last token there is only the end of input.
pub open spec fn tok_at(tokens: Seq<Tok>, k: nat) -> Tok {
    if k < tokens.len() {
        tokens[k as int]
    } else {
        Tok::Eof
    }
}

/// The number of tokens from position `k` on.
pub open spec fn remaining(tokens: Seq<Tok>, k: nat) -> nat {
    if k < tokens.len() {
        (tokens.len() - k) as nat
    } else {
        0
    }
}

/// The message that the token after the current one is not the expected one.
pub open spec fn expected_error(expected: Tok, actual: Tok) -> Seq<char> {
    "expected next token to be "@ + expected.debug_text() + ", got "@ + actual.debug_text()
        + " instead"@
}

/// The message that no expression starts with `token`.
pub open spec fn undefined_error(token: Tok) -> Seq<char> {
    "undefined expression for "@ + token.text() + " found"@
}

/// What reading one construct gave: the node, if the construct could be
/// read; the number of tokens that the reader moved forward; and the
/// error messages, in the order in which they arose.
pub struct Parsed<T> {
    pub node: Option<T>,
    pub used: nat,
    pub errors: Seq<Seq<char>>,
}

/// What reading a sequence of statements gave.
pub struct ParsedBlock {
    pub statements: Seq<Stmt>,
    pub used: nat,
    pub errors: Seq<Seq<char>>,
}

/// The node of a statement that was read, as a sequence of one or none.
pub open spec fn node_seq(node: Option<Stmt>) -> Seq<Stmt> {
    match node {
        Some(statement) => seq![statement],
        None => Seq::<Stmt>::empty(),
    }
}

/// The number of tokens from position `k` up to the next semicolon, or up
/// to the end of input where no semicolon follows.
pub open spec fn skip_to_semicolon(tokens: Seq<Tok>, k: nat) -> nat
    decreases remaining(tokens, k),
{
    if tok_at(tokens, k) is Semicolon || tok_at(tokens, k) is Eof {
        0
    } else {
        1 + skip_to_semicolon(tokens, k + 1)
    }
}

/// Reads a block whose opening brace is token `k`, and stops at its closing
/// brace or at the end of input.
#[verifier::opaque]
pub open spec fn parse_block(tokens: Seq<Tok>, k: nat) -> ParsedBlock
    decreases remaining(tokens, k), 7nat,
{
    let body = parse_statements(tokens, k + 1, true);
    ParsedBlock { statements: body.statements, used: 1 + body.used, errors: body.errors }
}

/// Reads statements from token `k` on, up to the end of input or, inside a
/// block, up to a closing brace. A statement that could not be read leaves
/// only its error messages.
#[verifier::opaque]
pub open spec fn parse_statements(tokens: Seq<Tok>, k: nat, in_block: bool) -> ParsedBlock
    decreases remaining(tokens, k), 6nat,
{
    if tok_at(tokens, k) is Eof || (in_block && tok_at(tokens, k) is Rbrace) {
        ParsedBlock { statements: Seq::empty(), used: 0, errors: Seq::empty() }
    } else {
        let first = parse_statement(tokens, k);
        let rest = parse_statements(tokens, k + first.used + 1, in_block);
        ParsedBlock {
            statements: node_seq(first.node) + rest.statements,
            used: first.used + 1 + rest.used,
            errors: first.errors + rest.errors,
        }
    }
}

/// Reads the statement that starts at token `k`.
#[verifier::opaque]
pub open spec fn parse_statement(tokens: Seq<Tok>, k: nat) -> Parsed<Stmt>
    decreases remaining(tokens, k), 5nat,
{
    match tok_at(tokens, k) {
        Tok::Let => parse_let_statement(tokens, k),
        Tok::Return => parse_return_statement(tokens, k),
        _ => parse_expression_statement(tokens, k),
    }
}

/// Reads `let <name> = <expression>` at token `k`, then moves to the
/// semicolon that ends the statement.
#[verifier::opaque]
pub open spec fn parse_let_statement(tokens: Seq<Tok>, k: nat) -> Parsed<Stmt>
    decreases remaining(tokens, k), 4nat,
{
    match tok_at(tokens, k + 1) {
        Tok::Ident(name) => if !(tok_at(tokens, k + 2) is Assign) {
            Parsed {
                node: None,
                used: 1,
                errors: seq![expected_error(Tok::Assign, tok_at(tokens, k + 2))],
            }
        } else {
            let value = parse_expression(tokens, k + 3, Precedence::Lowest);
            match value.node {
                None => Parsed { node: None, used: 3 + value.used, errors: value.errors },
                Some(expression) => Parsed {
                    node: Some(Stmt::Let(name, expression)),
                    used: 3 + value.used + skip_to_semicolon(tokens, k + 3 + value.used),
                    errors: value.errors,
                },
            }
        },
        other => Parsed {
            node: None,
            used: 0,
            errors: seq![expected_error(Tok::Ident(Seq::empty()), other)],
        },
    }
}

/// Reads `return <expression>` at token `k`, then moves to the semicolon
/// that ends the statement.
#[verifier::opaque]
pub open spec fn parse_return_statement(tokens: Seq<Tok>, k: nat) -> Parsed<Stmt>
    decreases remaining(tokens, k), 4nat,
{
    let value = parse_expression(tokens, k + 1, Precedence::Lowest);
    match value.node {
        None => Parsed { node: None, used: 1 + value.used, errors: value.errors },
        Some(expression) => Parsed {
            node: Some(Stmt::Return(expression)),
            used: 1 + value.used + skip_to_semicolon(tokens, k + 1 + value.used),
            errors: value.errors,
        },
    }
}

/// Reads an expression at token `k` as a statement, with the semicolon
/// behind it if there is one.
#[verifier::opaque]
pub open spec fn parse_expression_statement(tokens: Seq<Tok>, k: nat) -> Parsed<Stmt>
    decreases remaining(tokens, k), 4nat,
{
    let value = parse_expression(tokens, k, Precedence::Lowest);
    match value.node {
        None => Parsed { node: None, used: value.used, errors: value.errors },
        Some(expression) => Parsed {
            node: Some(Stmt::Expression(expression)),
            used: if tok_at(tokens, k + value.used + 1) is Semicolon {
                value.used + 1
            } else {
                value.used
            },
            errors: value.errors,
        },
    }
}

/// Reads the expression that starts at token `k`, as far as its operators
/// bind more strongly than `precedence`. The reader stops on the last token
/// of the expression.
#[verifier::opaque]
pub open spec fn parse_expression(tokens: Seq<Tok>, k: nat, precedence: Precedence) -> Parsed<Expr>
    decreases remaining(tokens, k), 3nat,
{
    let left = parse_prefix(tokens, k);
    match left.node {
        None => left,
        Some(expression) => {
            let whole = parse_infix(tokens, k + left.used, expression, precedence);
            Parsed {
                node: whole.node,
                used: left.used + whole.used,
                errors: left.errors + whole.errors,
            }
        },
    }
}

/// Reads what may start an expression at token `k`: a name, a literal, an
/// expression in brackets, a prefix operation or a conditional.
#[verifier::opaque]
pub open spec fn parse_prefix(tokens: Seq<Tok>, k: nat) -> Parsed<Expr>
    decreases remaining(tokens, k), 2nat,
{
    match tok_at(tokens, k) {
        Tok::Ident(name) => Parsed {
            node: Some(Expr::Literal(name)),
            used: 0,
            errors: Seq::empty(),
        },
        Tok::Int(value) => Parsed { node: Some(Expr::Int(value)), used: 0, errors: Seq::empty() },
        Tok::True => Parsed { node: Some(Expr::Boolean(true)), used: 0, errors: Seq::empty() },
        Tok::False => Parsed { node: Some(Expr::Boolean(false)), used: 0, errors: Seq::empty() },
        Tok::Lparen => {
            let inner = parse_expression(tokens, k + 1, Precedence::Lowest);
            match inner.node {
                None => Parsed { node: None, used: 1 + inner.used, errors: inner.errors },
                Some(expression) => if tok_at(tokens, k + 1 + inner.used + 1) is Rparen {
                    Parsed {
                        node: Some(expression),
                        used: 1 + inner.used + 1,
                        errors: inner.errors,
                    }
                } else {
                    Parsed {
                        node: None,
                        used: 1 + inner.used,
                        errors: inner.errors.push(
                            expected_error(Tok::Rparen, tok_at(tokens, k + 1 + inner.used + 1)),
                        ),
                    }
                },
            }
        },
        Tok::Bang | Tok::Minus => {
            let operand = parse_expression(tokens, k + 1, Precedence::Prefix);
            match operand.node {
                None => Parsed { node: None, used: 1 + operand.used, errors: operand.errors },
                Some(expression) => Parsed {
                    node: Some(Expr::Prefix(tok_at(tokens, k).text(), Box::new(expression))),
                    used: 1 + operand.used,
                    errors: operand.errors,
                },
            }
        },
        Tok::If => parse_if(tokens, k),
        other => Parsed { node: None, used: 0, errors: seq![undefined_error(other)] },
    }
}

/// Reads `if (<condition>) { <consequence> }`, with `else { <alternative> }`
/// behind it if there is one, where token `k` is the `if`.
#[verifier::opaque]
pub open spec fn parse_if(tokens: Seq<Tok>, k: nat) -> Parsed<Expr>
    decreases remaining(tokens, k), 1nat,
    when tok_at(tokens, k) is If
{
    if !(tok_at(tokens, k + 1) is Lparen) {
        Parsed {
            node: None,
            used: 0,
            errors: seq![expected_error(Tok::Lparen, tok_at(tokens, k + 1))],
        }
    } else {
        let condition = parse_expression(tokens, k + 2, Precedence::Lowest);
        match condition.node {
            None => Parsed { node: None, used: 2 + condition.used, errors: condition.errors },
            Some(expression) => {
                let whole = parse_branches(tokens, k + 2 + condition.used, expression);
                Parsed {
                    node: whole.node,
                    used: 2 + condition.used + whole.used,
                    errors: condition.errors + whole.errors,
                }
            },
        }
    }
}

/// Reads what follows the condition of a conditional, whose last token is
/// token `k`: `) { <consequence> }`, with `else { <alternative> }` behind it
/// if there is one.
#[verifier::opaque]
pub open spec fn parse_branches(tokens: Seq<Tok>, k: nat, condition: Expr) -> Parsed<Expr>
    decreases remaining(tokens, k), 0nat,
{
    if !(tok_at(tokens, k + 1) is Rparen) {
        Parsed {
            node: None,
            used: 0,
            errors: seq![expected_error(Tok::Rparen, tok_at(tokens, k + 1))],
        }
    } else if !(tok_at(tokens, k + 2) is Lbrace) {
        Parsed {
            node: None,
            used: 1,
            errors: seq![expected_error(Tok::Lbrace, tok_at(tokens, k + 2))],
        }
    } else {
        let consequence = parse_block(tokens, k + 2);
        let after = k + 2 + consequence.used;
        if !(tok_at(tokens, after + 1) is Else) {
            Parsed {
                node: Some(Expr::If(Box::new(condition), consequence.statements, None)),
                used: 2 + consequence.used,
                errors: consequence.errors,
            }
        } else if !(tok_at(tokens, after + 2) is Lbrace) {
            Parsed {
                node: None,
                used: 2 + consequence.used + 1,
                errors: consequence.errors.push(
                    expected_error(Tok::Lbrace, tok_at(tokens, after + 2)),
                ),
            }
        } else {
            let alternative = parse_block(tokens, after + 2);
            Parsed {
                node: Some(
                    Expr::If(
                        Box::new(condition),
                        consequence.statements,
                        Some(alternative.statements),
                    ),
                ),
                used: 2 + consequence.used + 2 + alternative.used,
                errors: consequence.errors + alternative.errors,
            }
        }
    }
}

/// Reads the infix operations behind the expression `left`, whose last
/// token is token `k`, as long as the next operator binds more strongly than
/// `precedence`. Operators of one precedence group to the left.
#[verifier::opaque]
pub open spec fn parse_infix(
    tokens: Seq<Tok>,
    k: nat,
    left: Expr,
    precedence: Precedence,
) -> Parsed<Expr>
    decreases remaining(tokens, k), 2nat,
{
    let operator = tok_at(tokens, k + 1);
    if precedence.rank() < precedence_of(operator).rank() {
        let right = parse_expression(tokens, k + 2, precedence_of(operator));
        match right.node {
            None => Parsed { node: None, used: 2 + right.used, errors: right.errors },
            Some(expression) => {
                let whole = parse_infix(
                    tokens,
                    k + 2 + right.used,
                    Expr::Infix(Box::new(left), operator.text(), Box::new(expression)),
                    precedence,
                );
                Parsed {
                    node: whole.node,
                    used: 2 + right.used + whole.used,
                    errors: right.errors + whole.errors,
                }
            },
        }
    } else {
        Parsed { node: Some(left), used: 0, errors: Seq::empty() }
    }
}

/// Reads a whole program from token `k` on.
pub open spec fn parse_program(tokens: Seq<Tok>, k: nat) -> ParsedBlock {
    parse_statements(tokens, k, false)
}

} // verus!
