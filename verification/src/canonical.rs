//! The canonical form of expressions, statements and programs, token by
//! token, and the proof that the grammar reads it back as what it came
//! from.

use crate::ast::{Expr, Stmt};
use crate::grammar::{
    parse_expression, parse_expression_statement, parse_infix, parse_let_statement, parse_prefix,
    parse_program, parse_return_statement, parse_statement, parse_statements, precedence_of,
    skip_to_semicolon, tok_at, Parsed, Precedence,
};
use crate::token::Tok;
use vstd::prelude::*;

verus! {

/// The token of the prefix operator that `operator` writes, if it writes one.
pub open spec fn prefix_token(operator: Seq<char>) -> Option<Tok> {
    if operator == "!"@ {
        Some(Tok::Bang)
    } else if operator == "-"@ {
        Some(Tok::Minus)
    } else {
        None
    }
}

/// The token of the infix operator that `operator` writes, if it writes one.
pub open spec fn infix_token(operator: Seq<char>) -> Option<Tok> {
    if operator == "+"@ {
        Some(Tok::Plus)
    } else if operator == "-"@ {
        Some(Tok::Minus)
    } else if operator == "*"@ {
        Some(Tok::Asterisk)
    } else if operator == "/"@ {
        Some(Tok::Slash)
    } else if operator == "<"@ {
        Some(Tok::Lt)
    } else if operator == ">"@ {
        Some(Tok::Gt)
    } else if operator == "=="@ {
        Some(Tok::Eq)
    } else if operator == "!="@ {
        Some(Tok::NotEq)
    } else {
        None
    }
}

/// An expression made of names, literals and the operators of the
/// language, without a conditional.
pub open spec fn operator_form(expression: Expr) -> bool
    decreases expression,
{
    match expression {
        Expr::Literal(_) | Expr::Int(_) | Expr::Boolean(_) => true,
        Expr::Prefix(operator, right) => prefix_token(operator) is Some && operator_form(*right),
        Expr::Infix(left, operator, right) => infix_token(operator) is Some && operator_form(*left)
            && operator_form(*right),
        Expr::If(_, _, _) => false,
    }
}

/// The tokens of the canonical rendering of an expression in operator form:
/// every operation in its own pair of brackets.
pub open spec fn canonical_tokens(expression: Expr) -> Seq<Tok>
    decreases expression,
{
    match expression {
        Expr::Literal(name) => seq![Tok::Ident(name)],
        Expr::Int(value) => seq![Tok::Int(value)],
        Expr::Boolean(value) => seq![if value { Tok::True } else { Tok::False }],
        Expr::Prefix(operator, right) => seq![Tok::Lparen, prefix_token(operator).unwrap()]
            + canonical_tokens(*right) + seq![Tok::Rparen],
        Expr::Infix(left, operator, right) => seq![Tok::Lparen] + canonical_tokens(*left)
            + seq![infix_token(operator).unwrap()] + canonical_tokens(*right) + seq![Tok::Rparen],
        Expr::If(_, _, _) => Seq::empty(),
    }
}

/// The tokens from position `k` on start with `part`.
pub open spec fn holds_at(tokens: Seq<Tok>, k: nat, part: Seq<Tok>) -> bool {
    &&& k + part.len() <= tokens.len()
    &&& tokens.subrange(k as int, (k + part.len()) as int) == part
}

/// The grammar read `expression`, moved `used` tokens forward and had
/// no error to report.
pub open spec fn read_cleanly<T>(parsed: Parsed<T>, node: T, used: nat) -> bool {
    &&& parsed.node == Some(node)
    &&& parsed.used == used
    &&& parsed.errors.len() == 0
}

/// The canonical form of an expression starts with a token that starts an
/// expression, and ends with a token that ends no statement.
proof fn lemma_canonical_tokens_ends(expression: Expr)
    requires
        operator_form(expression),
    ensures
        canonical_tokens(expression).len() > 0,
        ({
            let first = canonical_tokens(expression).first();
            first is Lparen || first is Ident || first is Int || first is True || first is False
        }),
        ({
            let last = canonical_tokens(expression).last();
            last is Rparen || last is Ident || last is Int || last is True || last is False
        }),
{
}

/// Where `part` holds at position `k`, its tokens are those of `tokens`
/// from `k` on.
proof fn lemma_holds_at_index(tokens: Seq<Tok>, k: nat, part: Seq<Tok>, i: int)
    requires
        holds_at(tokens, k, part),
        0 <= i < part.len(),
    ensures
        tok_at(tokens, (k + i) as nat) == part[i],
{
    assert(tokens.subrange(k as int, (k + part.len()) as int)[i] == part[i]);
}

/// Where a sequence holds at position `k`, each part of it holds at its
/// own place.
proof fn lemma_holds_at_part(tokens: Seq<Tok>, k: nat, whole: Seq<Tok>, from: int, to: int)
    requires
        holds_at(tokens, k, whole),
        0 <= from <= to <= whole.len(),
    ensures
        holds_at(tokens, (k + from) as nat, whole.subrange(from, to)),
{
    let part = whole.subrange(from, to);
    assert(tokens.subrange(k + from, k + from + part.len()) =~= part) by {
        assert forall|i: int| 0 <= i < part.len() implies tokens.subrange(
            k + from,
            k + from + part.len(),
        )[i] == part[i] by {
            lemma_holds_at_index(tokens, k, whole, from + i);
        }
    }
}

/// No infix operation follows an expression where the next token does not
/// bind more strongly than the precedence asked for.
#[verifier::spinoff_prover]
proof fn lemma_infix_stops(tokens: Seq<Tok>, k: nat, left: Expr, precedence: Precedence)
    requires
        precedence.rank() >= precedence_of(tok_at(tokens, k + 1)).rank(),
    ensures
        read_cleanly(parse_infix(tokens, k, left, precedence), left, 0),
{
    reveal(parse_infix);
}

/// What starts an expression is the whole expression where no infix
/// operation follows it.
#[verifier::spinoff_prover]
proof fn lemma_expression_of_prefix(
    tokens: Seq<Tok>,
    k: nat,
    expression: Expr,
    used: nat,
    precedence: Precedence,
)
    requires
        read_cleanly(parse_prefix(tokens, k), expression, used),
        precedence.rank() >= precedence_of(tok_at(tokens, k + used + 1)).rank(),
    ensures
        read_cleanly(parse_expression(tokens, k, precedence), expression, used),
{
    reveal(parse_expression);
    lemma_infix_stops(tokens, k + used, expression, precedence);
}

/// Between brackets, one infix operation between two operands that are
/// read cleanly is read as that operation.
#[verifier::spinoff_prover]
proof fn lemma_expression_of_operation(
    tokens: Seq<Tok>,
    k: nat,
    left: Expr,
    left_used: nat,
    operator: Tok,
    right: Expr,
    right_used: nat,
)
    requires
        read_cleanly(parse_prefix(tokens, k), left, left_used),
        tok_at(tokens, k + left_used + 1) == operator,
        precedence_of(operator).rank() > 0,
        read_cleanly(parse_prefix(tokens, k + left_used + 2), right, right_used),
        tok_at(tokens, k + left_used + 2 + right_used + 1) is Rparen,
    ensures
        read_cleanly(
            parse_expression(tokens, k, Precedence::Lowest),
            Expr::Infix(Box::new(left), operator.text(), Box::new(right)),
            left_used + 2 + right_used,
        ),
{
    reveal(parse_expression);
    reveal(parse_infix);
    let whole = Expr::Infix(Box::new(left), operator.text(), Box::new(right));
    lemma_expression_of_prefix(
        tokens,
        k + left_used + 2,
        right,
        right_used,
        precedence_of(operator),
    );
    lemma_infix_stops(tokens, k + left_used + 2 + right_used, whole, Precedence::Lowest);
    assert(read_cleanly(
        parse_infix(tokens, k + left_used, left, Precedence::Lowest),
        whole,
        2 + right_used,
    ));
}

/// Reading the canonical rendering of an expression gives the expression
/// back: where the tokens of the rendering stand at position `k`, the
/// grammar reads there the expression that was rendered, up to the last of
/// these tokens, and reports no error.
#[verifier::spinoff_prover]
#[verifier::rlimit(30)]
pub proof fn lemma_reads_canonical_form(tokens: Seq<Tok>, k: nat, expression: Expr)
    requires
        operator_form(expression),
        holds_at(tokens, k, canonical_tokens(expression)),
    ensures
        read_cleanly(
            parse_prefix(tokens, k),
            expression,
            (canonical_tokens(expression).len() - 1) as nat,
        ),
    decreases expression,
{
    reveal(parse_prefix);
    let form = canonical_tokens(expression);
    lemma_holds_at_index(tokens, k, form, 0);
    match expression {
        Expr::Literal(_) | Expr::Int(_) | Expr::Boolean(_) => {},
        Expr::Prefix(operator, right) => {
            let inner = canonical_tokens(*right);
            let n = inner.len() as int;
            lemma_canonical_tokens_ends(*right);
            lemma_holds_at_index(tokens, k, form, 1);
            lemma_holds_at_index(tokens, k, form, 2 + n);
            assert(form.subrange(2, 2 + n) =~= inner);
            lemma_holds_at_part(tokens, k, form, 2, 2 + n);
            lemma_reads_canonical_form(tokens, k + 2, *right);
            lemma_expression_of_prefix(tokens, k + 2, *right, (n - 1) as nat, Precedence::Prefix);
            // The operation as a whole, read behind the opening bracket.
            assert(read_cleanly(parse_prefix(tokens, k + 1), expression, n as nat)) by {
                reveal(parse_prefix);
            }
            lemma_expression_of_prefix(tokens, k + 1, expression, n as nat, Precedence::Lowest);
        },
        Expr::Infix(left, operator, right) => {
            let first = canonical_tokens(*left);
            let second = canonical_tokens(*right);
            let n = first.len() as int;
            let m = second.len() as int;
            lemma_canonical_tokens_ends(*left);
            lemma_canonical_tokens_ends(*right);
            lemma_holds_at_index(tokens, k, form, 1 + n);
            lemma_holds_at_index(tokens, k, form, 2 + n + m);
            assert(form.subrange(1, 1 + n) =~= first);
            assert(form.subrange(2 + n, 2 + n + m) =~= second);
            lemma_holds_at_part(tokens, k, form, 1, 1 + n);
            lemma_holds_at_part(tokens, k, form, 2 + n, 2 + n + m);
            lemma_reads_canonical_form(tokens, k + 1, *left);
            lemma_reads_canonical_form(tokens, (k + 2 + n) as nat, *right);
            lemma_expression_of_operation(
                tokens,
                k + 1,
                *left,
                (n - 1) as nat,
                infix_token(operator).unwrap(),
                *right,
                (m - 1) as nat,
            );
        },
        Expr::If(_, _, _) => {},
    }
}

/// A statement whose expression is in operator form.
pub open spec fn operator_statement(statement: Stmt) -> bool {
    match statement {
        Stmt::Let(_, value) => operator_form(value),
        Stmt::Return(value) => operator_form(value),
        Stmt::Expression(value) => operator_form(value),
    }
}

/// A program whose rendering can be read back: its statements are in
/// operator form, and each of them but the last is a `let`, the one
/// statement whose rendering shows where it ends.
pub open spec fn canonical_program(program: Seq<Stmt>) -> bool {
    forall|i: int|
        0 <= i < program.len() ==> operator_statement(#[trigger] program[i]) && (i < program.len()
            - 1 ==> program[i] is Let)
}

/// The tokens of the canonical rendering of a statement.
pub open spec fn statement_tokens(statement: Stmt) -> Seq<Tok> {
    match statement {
        Stmt::Let(name, value) => seq![Tok::Let, Tok::Ident(name), Tok::Assign] + canonical_tokens(
            value,
        ) + seq![Tok::Semicolon],
        Stmt::Return(value) => seq![Tok::Return] + canonical_tokens(value),
        Stmt::Expression(value) => canonical_tokens(value),
    }
}

/// The tokens of the canonical rendering of a program: those of its
/// statements, one after the other.
pub open spec fn program_tokens(program: Seq<Stmt>) -> Seq<Tok>
    decreases program.len(),
{
    if program.len() == 0 {
        Seq::empty()
    } else {
        statement_tokens(program[0]) + program_tokens(program.drop_first())
    }
}

/// Where no semicolon follows, a statement ends with the input.
proof fn lemma_skip_to_end(tokens: Seq<Tok>, k: nat)
    requires
        k + 1 >= tokens.len(),
        !(tok_at(tokens, k) is Semicolon),
        !(tok_at(tokens, k) is Eof),
    ensures
        k + skip_to_semicolon(tokens, k) >= tokens.len(),
{
    reveal_with_fuel(skip_to_semicolon, 2);
}

/// Reading the canonical rendering of a `let` statement gives the
/// statement back, and the reader stops on its semicolon.
#[verifier::spinoff_prover]
proof fn lemma_reads_let(tokens: Seq<Tok>, k: nat, name: Seq<char>, value: Expr)
    requires
        operator_form(value),
        holds_at(tokens, k, statement_tokens(Stmt::Let(name, value))),
    ensures
        read_cleanly(
            parse_statement(tokens, k),
            Stmt::Let(name, value),
            (statement_tokens(Stmt::Let(name, value)).len() - 1) as nat,
        ),
{
    reveal(parse_statement);
    reveal(parse_let_statement);
    let form = statement_tokens(Stmt::Let(name, value));
    let inner = canonical_tokens(value);
    let n = inner.len() as int;
    lemma_canonical_tokens_ends(value);
    lemma_holds_at_index(tokens, k, form, 0);
    lemma_holds_at_index(tokens, k, form, 1);
    lemma_holds_at_index(tokens, k, form, 2);
    lemma_holds_at_index(tokens, k, form, 2 + n);
    lemma_holds_at_index(tokens, k, form, 3 + n);
    assert(form.subrange(3, 3 + n) =~= inner);
    assert(form[2 + n] == inner.last());
    lemma_holds_at_part(tokens, k, form, 3, 3 + n);
    lemma_reads_canonical_form(tokens, k + 3, value);
    lemma_expression_of_prefix(tokens, k + 3, value, (n - 1) as nat, Precedence::Lowest);
    assert(skip_to_semicolon(tokens, (k + 2 + n) as nat) == 1) by {
        reveal_with_fuel(skip_to_semicolon, 2);
    }
}

/// Reading the canonical rendering of a statement that ends the input
/// gives the statement back, and the reader stops at the end of input or on
/// the last token before it.
#[verifier::spinoff_prover]
proof fn lemma_reads_last_statement(tokens: Seq<Tok>, k: nat, statement: Stmt)
    requires
        operator_statement(statement),
        !(statement is Let),
        holds_at(tokens, k, statement_tokens(statement)),
        k + statement_tokens(statement).len() == tokens.len(),
    ensures
        parse_statement(tokens, k).node == Some(statement),
        parse_statement(tokens, k).errors.len() == 0,
        k + parse_statement(tokens, k).used + 1 >= tokens.len(),
        !(tok_at(tokens, k) is Eof),
{
    reveal(parse_statement);
    reveal(parse_return_statement);
    reveal(parse_expression_statement);
    let form = statement_tokens(statement);
    lemma_holds_at_index(tokens, k, form, 0);
    match statement {
        Stmt::Return(value) => {
            let inner = canonical_tokens(value);
            let n = inner.len() as int;
            lemma_canonical_tokens_ends(value);
            lemma_holds_at_index(tokens, k, form, n);
            assert(form.subrange(1, 1 + n) =~= inner);
            assert(form[n] == inner.last());
            lemma_holds_at_part(tokens, k, form, 1, 1 + n);
            lemma_reads_canonical_form(tokens, k + 1, value);
            lemma_expression_of_prefix(tokens, k + 1, value, (n - 1) as nat, Precedence::Lowest);
            lemma_skip_to_end(tokens, (k + n) as nat);
        },
        Stmt::Expression(value) => {
            let n = form.len() as int;
            lemma_canonical_tokens_ends(value);
            lemma_reads_canonical_form(tokens, k, value);
            lemma_expression_of_prefix(tokens, k, value, (n - 1) as nat, Precedence::Lowest);
        },
        Stmt::Let(_, _) => {},
    }
}

/// Behind the last token there is no statement.
#[verifier::spinoff_prover]
proof fn lemma_no_statement_at_end(tokens: Seq<Tok>, k: nat)
    requires
        k >= tokens.len(),
    ensures
        parse_statements(tokens, k, false).statements.len() == 0,
        parse_statements(tokens, k, false).errors.len() == 0,
{
    reveal(parse_statements);
}

/// Reading the canonical rendering of a program gives the program back:
/// where the tokens of the rendering stand from position `k` up to the end
/// of input, the grammar reads there the statements that were rendered, and
/// reports no error.
#[verifier::spinoff_prover]
pub proof fn lemma_reads_canonical_program(tokens: Seq<Tok>, k: nat, program: Seq<Stmt>)
    requires
        canonical_program(program),
        holds_at(tokens, k, program_tokens(program)),
        k + program_tokens(program).len() == tokens.len(),
    ensures
        parse_statements(tokens, k, false).statements == program,
        parse_statements(tokens, k, false).errors.len() == 0,
    decreases program.len(),
{
    reveal(parse_statements);
    if program.len() == 0 {
        assert(parse_statements(tokens, k, false).statements =~= program);
    } else {
        let first = program[0];
        let rest = program.drop_first();
        let form = program_tokens(program);
        let n = statement_tokens(first).len() as int;
        assert(form.subrange(0, n) =~= statement_tokens(first));
        assert(form.subrange(n, form.len() as int) =~= program_tokens(rest));
        lemma_holds_at_part(tokens, k, form, 0, n);
        lemma_holds_at_part(tokens, k, form, n, form.len() as int);
        assert(canonical_program(rest)) by {
            assert forall|i: int| 0 <= i < rest.len() implies operator_statement(
                #[trigger] rest[i],
            ) && (i < rest.len() - 1 ==> rest[i] is Let) by {
                assert(rest[i] == program[i + 1]);
            }
        }
        let next = k + parse_statement(tokens, k).used + 1;
        match first {
            Stmt::Let(name, value) => {
                lemma_canonical_tokens_ends(value);
                lemma_holds_at_index(tokens, k, statement_tokens(first), 0);
                lemma_reads_let(tokens, k, name, value);
                assert(next == k + n);
                lemma_reads_canonical_program(tokens, next, rest);
            },
            _ => {
                assert(rest.len() == 0);
                assert(program_tokens(rest).len() == 0);
                lemma_reads_last_statement(tokens, k, first);
                lemma_no_statement_at_end(tokens, next);
            },
        }
        assert(!(tok_at(tokens, k) is Eof));
        assert(parse_statement(tokens, k).node == Some(first));
        assert(parse_statements(tokens, next, false).statements =~= rest);
        assert(parse_statements(tokens, k, false).statements =~= seq![first] + rest);
        assert(program =~= seq![first] + rest);
    }
}

/// Round trip: the tokens of the canonical rendering of a program, read as
/// a program, are the statements that were rendered, and the grammar
/// reports no error.
pub proof fn lemma_canonical_round_trip(program: Seq<Stmt>)
    requires
        canonical_program(program),
    ensures
        parse_program(program_tokens(program), 0).statements == program,
        parse_program(program_tokens(program), 0).errors.len() == 0,
{
    let tokens = program_tokens(program);
    assert(tokens.subrange(0, tokens.len() as int) =~= tokens);
    lemma_reads_canonical_program(tokens, 0, program);
}

} // verus!
