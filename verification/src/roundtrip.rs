//! Round trip through text: the canonical rendering of a program is read
//! back, by the lexer and the grammar, as the program it came from; and
//! what the parser reads from a text renders to a text that is read back
//! as the same program, so that rendering it again changes nothing.

use crate::ast::{block_text, Expr, Stmt};
use crate::canonical::{
    canonical_program, canonical_tokens, infix_token, lemma_canonical_round_trip, operator_form,
    operator_statement, prefix_token, program_tokens, statement_tokens,
};
use crate::grammar::{
    node_seq, parse_branches, parse_expression, parse_expression_statement, parse_if,
    parse_infix, parse_let_statement, parse_prefix, parse_program, parse_return_statement,
    parse_statement, parse_statements, precedence_of, remaining, tok_at, Precedence,
};
use crate::lexer::{
    digit, digit_value, digits_value, lemma_run_end, lemma_scan_advances, letter, number_token,
    run_end, scan, tokenize, tokens_from, CharClass, Scan,
};
use crate::text::{digit_char, nat_text};
use crate::token::{keyword_or_ident, Tok};
use vstd::prelude::*;

verus! {

/// A word that the lexer reads as an identifier: letters only, at least
/// one, and no keyword.
pub open spec fn identifier(word: Seq<char>) -> bool {
    &&& word.len() > 0
    &&& forall|i: int| 0 <= i < word.len() ==> letter(#[trigger] word[i])
    &&& keyword_or_ident(word) == Tok::Ident(word)
}

/// A statement whose canonical rendering the lexer reads back token by
/// token: its expression is writable, and the name that a `let` binds is an
/// identifier.
pub open spec fn writable_statement(statement: Stmt) -> bool {
    match statement {
        Stmt::Let(name, value) => identifier(name) && writable(value),
        Stmt::Return(value) => writable(value),
        Stmt::Expression(value) => writable(value),
    }
}

/// A program whose canonical rendering is read back as the program: its
/// statements are writable, and each of them but the last is a `let`. (The
/// rendering puts nothing between two statements, and only a `let` ends
/// with a semicolon.)
pub open spec fn writable_program(program: Seq<Stmt>) -> bool {
    forall|i: int|
        0 <= i < program.len() ==> writable_statement(#[trigger] program[i]) && (i < program.len()
            - 1 ==> program[i] is Let)
}

/// An expression whose canonical rendering the lexer reads back token by
/// token: its names are identifiers, its integer literals are not negative,
/// and it holds no conditional.
pub open spec fn writable(expression: Expr) -> bool
    decreases expression,
{
    match expression {
        Expr::Literal(name) => identifier(name),
        Expr::Int(value) => value >= 0,
        Expr::Boolean(_) => true,
        Expr::Prefix(operator, right) => prefix_token(operator) is Some && writable(*right),
        Expr::Infix(left, operator, right) => infix_token(operator) is Some && writable(*left)
            && writable(*right),
        Expr::If(_, _, _) => false,
    }
}

/// The characters of `text` stand in `input` from position `pos` on.
pub open spec fn stands_at(input: Seq<char>, pos: int, text: Seq<char>) -> bool {
    &&& 0 <= pos
    &&& pos + text.len() <= input.len()
    &&& input.subrange(pos, pos + text.len()) == text
}

/// At position `pos` the input ends, or a character stands that ends any
/// token before it: a space, a closing bracket or a semicolon.
pub open spec fn token_ends(input: Seq<char>, pos: int) -> bool {
    pos >= input.len() || input[pos] == ' ' || input[pos] == ')' || input[pos] == ';'
}

/// Where `text` stands at `pos`, its characters are those of the input
/// from `pos` on.
proof fn lemma_stands_at_index(input: Seq<char>, pos: int, text: Seq<char>, i: int)
    requires
        stands_at(input, pos, text),
        0 <= i < text.len(),
    ensures
        input[pos + i] == text[i],
{
    assert(input.subrange(pos, pos + text.len())[i] == text[i]);
}

/// Where a text stands at `pos`, each part of it stands at its own place.
proof fn lemma_stands_at_part(input: Seq<char>, pos: int, whole: Seq<char>, from: int, to: int)
    requires
        stands_at(input, pos, whole),
        0 <= from <= to <= whole.len(),
    ensures
        stands_at(input, pos + from, whole.subrange(from, to)),
{
    let part = whole.subrange(from, to);
    assert(input.subrange(pos + from, pos + from + part.len()) =~= part) by {
        assert forall|i: int| 0 <= i < part.len() implies input.subrange(
            pos + from,
            pos + from + part.len(),
        )[i] == part[i] by {
            lemma_stands_at_index(input, pos, whole, from + i);
        }
    }
}

/// A decimal numeral is made of digits, at least one, and writes its number.
pub proof fn lemma_nat_text(n: nat)
    ensures
        nat_text(n).len() > 0,
        forall|i: int| 0 <= i < nat_text(n).len() ==> digit(#[trigger] nat_text(n)[i]),
        digits_value(nat_text(n)) == n,
    decreases n,
{
    let last = digit_char(n % 10);
    assert(digit(last) && digit_value(last) == n % 10);
    if n < 10 {
        assert(nat_text(n) =~= seq![last]);
        assert(nat_text(n).drop_last() =~= Seq::<char>::empty());
        assert(digits_value(nat_text(n)) == digits_value(Seq::<char>::empty()) * 10 + digit_value(
            last,
        ));
    } else {
        lemma_nat_text(n / 10);
        assert(nat_text(n).drop_last() =~= nat_text(n / 10));
    }
}

/// A run of characters of one class, with none of the class behind it,
/// ends where it ends.
proof fn lemma_run(input: Seq<char>, pos: int, end: int, class: CharClass)
    requires
        0 <= pos <= end <= input.len(),
        forall|i: int| pos <= i < end ==> class.holds(#[trigger] input[i]),
        end == input.len() || !class.holds(input[end]),
    ensures
        run_end(input, pos, class) == end,
    decreases end - pos,
{
    if pos < end {
        lemma_run(input, pos + 1, end, class);
    }
}

/// A step of the lexer that yields a token is a step of the token stream.
#[verifier::spinoff_prover]
proof fn lemma_tokens_step(input: Seq<char>, pos: int, token: Tok, next: int)
    requires
        0 <= pos <= input.len(),
        scan(input, pos) == (Scan { token, next }),
        !(token is Eof),
    ensures
        tokens_from(input, pos) == seq![token] + tokens_from(input, next),
{
    reveal(tokens_from);
}

/// The lexer passes over a space.
#[verifier::spinoff_prover]
proof fn lemma_step_space(input: Seq<char>, pos: int)
    requires
        0 <= pos < input.len(),
        input[pos] == ' ',
    ensures
        tokens_from(input, pos) == tokens_from(input, pos + 1),
{
    assert(run_end(input, pos, CharClass::Whitespace) == run_end(
        input,
        pos + 1,
        CharClass::Whitespace,
    ));
    assert(scan(input, pos) == scan(input, pos + 1));
    lemma_scan_advances(input, pos + 1);
    reveal(tokens_from);
}

/// The lexer reads one character that is a token by itself.
proof fn lemma_step_symbol(input: Seq<char>, pos: int, token: Tok)
    requires
        0 <= pos < input.len(),
        ({
            let c = input[pos];
            let alone = pos + 1 >= input.len() || input[pos + 1] != '=';
            ||| c == '(' && token == Tok::Lparen
            ||| c == ')' && token == Tok::Rparen
            ||| c == '+' && token == Tok::Plus
            ||| c == '-' && token == Tok::Minus
            ||| c == '*' && token == Tok::Asterisk
            ||| c == '/' && token == Tok::Slash
            ||| c == '<' && token == Tok::Lt
            ||| c == '>' && token == Tok::Gt
            ||| c == ';' && token == Tok::Semicolon
            ||| c == '!' && alone && token == Tok::Bang
            ||| c == '=' && alone && token == Tok::Assign
        }),
    ensures
        tokens_from(input, pos) == seq![token] + tokens_from(input, pos + 1),
{
    assert(run_end(input, pos, CharClass::Whitespace) == pos);
    lemma_tokens_step(input, pos, token, pos + 1);
}

/// The lexer reads `==` and `!=` as one token each.
proof fn lemma_step_pair(input: Seq<char>, pos: int, token: Tok)
    requires
        0 <= pos,
        pos + 1 < input.len(),
        input[pos + 1] == '=',
        (input[pos] == '=' && token == Tok::Eq) || (input[pos] == '!' && token == Tok::NotEq),
    ensures
        tokens_from(input, pos) == seq![token] + tokens_from(input, pos + 2),
{
    assert(run_end(input, pos, CharClass::Whitespace) == pos);
    lemma_tokens_step(input, pos, token, pos + 2);
}

/// The lexer reads a word, with no letter behind it, as the keyword or
/// identifier that the word spells.
proof fn lemma_step_word(input: Seq<char>, pos: int, word: Seq<char>)
    requires
        stands_at(input, pos, word),
        word.len() > 0,
        forall|i: int| 0 <= i < word.len() ==> letter(#[trigger] word[i]),
        token_ends(input, pos + word.len()),
    ensures
        tokens_from(input, pos) == seq![keyword_or_ident(word)] + tokens_from(
            input,
            pos + word.len(),
        ),
{
    let end = pos + word.len();
    assert forall|i: int| pos <= i < end implies CharClass::Letter.holds(
        #[trigger] input[i],
    ) by {
        lemma_stands_at_index(input, pos, word, i - pos);
    }
    lemma_run(input, pos, end, CharClass::Letter);
    assert(letter(input[pos]));
    assert(run_end(input, pos, CharClass::Whitespace) == pos);
    lemma_tokens_step(input, pos, keyword_or_ident(word), end);
}

/// The lexer reads a decimal numeral of a number that fits in 64 bits, with
/// no digit behind it, as that number.
proof fn lemma_step_number(input: Seq<char>, pos: int, value: i64)
    requires
        value >= 0,
        stands_at(input, pos, nat_text(value as nat)),
        token_ends(input, pos + nat_text(value as nat).len()),
    ensures
        tokens_from(input, pos) == seq![Tok::Int(value)] + tokens_from(
            input,
            pos + nat_text(value as nat).len(),
        ),
{
    let numeral = nat_text(value as nat);
    let end = pos + numeral.len();
    lemma_nat_text(value as nat);
    assert forall|i: int| pos <= i < end implies CharClass::Digit.holds(
        #[trigger] input[i],
    ) by {
        lemma_stands_at_index(input, pos, numeral, i - pos);
    }
    lemma_run(input, pos, end, CharClass::Digit);
    assert(digit(input[pos]));
    assert(run_end(input, pos, CharClass::Whitespace) == pos);
    assert(number_token(numeral) == Tok::Int(value));
    lemma_tokens_step(input, pos, Tok::Int(value), end);
}

/// The lexer reads an infix operator, with a space behind it, as its token.
proof fn lemma_step_operator(input: Seq<char>, pos: int, operator: Seq<char>)
    requires
        infix_token(operator) is Some,
        stands_at(input, pos, operator),
        pos + operator.len() < input.len(),
        input[pos + operator.len()] == ' ',
    ensures
        tokens_from(input, pos) == seq![infix_token(operator).unwrap()] + tokens_from(
            input,
            pos + operator.len(),
        ),
{
    reveal_strlit("+");
    reveal_strlit("-");
    reveal_strlit("*");
    reveal_strlit("/");
    reveal_strlit("<");
    reveal_strlit(">");
    reveal_strlit("==");
    reveal_strlit("!=");
    lemma_stands_at_index(input, pos, operator, 0);
    if operator.len() == 1 {
        lemma_step_symbol(input, pos, infix_token(operator).unwrap());
    } else {
        lemma_stands_at_index(input, pos, operator, 1);
        lemma_step_pair(input, pos, infix_token(operator).unwrap());
    }
}

/// The canonical rendering of a writable expression starts with an opening
/// bracket, a letter or a digit.
proof fn lemma_text_starts(expression: Expr)
    requires
        writable(expression),
    ensures
        expression.text().len() > 0,
        expression.text()[0] == '(' || letter(expression.text()[0]) || digit(
            expression.text()[0],
        ),
{
    reveal_strlit("(");
    reveal_strlit("true");
    reveal_strlit("false");
    match expression {
        Expr::Int(value) => {
            lemma_nat_text(value as nat);
        },
        _ => {},
    }
}

/// The lexer reads the canonical rendering of a writable expression as the
/// tokens of its canonical form, wherever the rendering stands in the input,
/// provided that what follows it ends its last token.
pub proof fn lemma_tokens_of_text(input: Seq<char>, pos: int, expression: Expr)
    requires
        writable(expression),
        stands_at(input, pos, expression.text()),
        token_ends(input, pos + expression.text().len()),
    ensures
        tokens_from(input, pos) =~= canonical_tokens(expression) + tokens_from(
            input,
            pos + expression.text().len(),
        ),
    decreases expression,
{
    let text = expression.text();
    match expression {
        Expr::Literal(name) => {
            lemma_step_word(input, pos, name);
        },
        Expr::Int(value) => {
            lemma_step_number(input, pos, value);
        },
        Expr::Boolean(value) => {
            reveal_strlit("true");
            reveal_strlit("false");
            reveal_strlit("fn");
            reveal_strlit("let");
            lemma_step_word(input, pos, text);
        },
        Expr::Prefix(operator, right) => {
            reveal_strlit("(");
            reveal_strlit(")");
            reveal_strlit("!");
            reveal_strlit("-");
            let inner = right.text();
            let n = inner.len() as int;
            lemma_text_starts(*right);
            lemma_stands_at_index(input, pos, text, 0);
            lemma_stands_at_index(input, pos, text, 1);
            lemma_stands_at_index(input, pos, text, 2);
            lemma_stands_at_index(input, pos, text, 2 + n);
            assert(text.subrange(2, 2 + n) =~= inner);
            lemma_stands_at_part(input, pos, text, 2, 2 + n);
            lemma_step_symbol(input, pos, Tok::Lparen);
            lemma_step_symbol(input, pos + 1, prefix_token(operator).unwrap());
            lemma_tokens_of_text(input, pos + 2, *right);
            lemma_step_symbol(input, pos + 2 + n, Tok::Rparen);
        },
        Expr::Infix(left, operator, right) => {
            reveal_strlit("(");
            reveal_strlit(")");
            reveal_strlit(" ");
            let first = left.text();
            let second = right.text();
            let n = first.len() as int;
            let o = operator.len() as int;
            let m = second.len() as int;
            assert(text.len() == n + o + m + 4);
            lemma_stands_at_index(input, pos, text, 0);
            lemma_stands_at_index(input, pos, text, 1 + n);
            lemma_stands_at_index(input, pos, text, 2 + n + o);
            lemma_stands_at_index(input, pos, text, 3 + n + o + m);
            assert(text.subrange(1, 1 + n) =~= first);
            assert(text.subrange(2 + n, 2 + n + o) =~= operator);
            assert(text.subrange(3 + n + o, 3 + n + o + m) =~= second);
            lemma_stands_at_part(input, pos, text, 1, 1 + n);
            lemma_stands_at_part(input, pos, text, 2 + n, 2 + n + o);
            lemma_stands_at_part(input, pos, text, 3 + n + o, 3 + n + o + m);
            lemma_step_symbol(input, pos, Tok::Lparen);
            lemma_tokens_of_text(input, pos + 1, *left);
            lemma_step_space(input, pos + 1 + n);
            lemma_step_operator(input, pos + 2 + n, operator);
            lemma_step_space(input, pos + 2 + n + o);
            lemma_tokens_of_text(input, pos + 3 + n + o, *right);
            lemma_step_symbol(input, pos + 3 + n + o + m, Tok::Rparen);
        },
        Expr::If(_, _, _) => {},
    }
}

/// The lexer reads the canonical rendering of a writable statement as the
/// tokens of its canonical form, provided that what follows it ends its
/// last token.
proof fn lemma_tokens_of_statement(input: Seq<char>, pos: int, statement: Stmt)
    requires
        writable_statement(statement),
        stands_at(input, pos, statement.text()),
        statement is Let || token_ends(input, pos + statement.text().len()),
    ensures
        tokens_from(input, pos) =~= statement_tokens(statement) + tokens_from(
            input,
            pos + statement.text().len(),
        ),
{
    reveal_strlit("fn");
    reveal_strlit("let");
    reveal_strlit("true");
    reveal_strlit("false");
    reveal_strlit("if");
    reveal_strlit("else");
    reveal_strlit("return");
    let text = statement.text();
    match statement {
        Stmt::Let(name, value) => {
            reveal_strlit("let ");
            reveal_strlit(" = ");
            reveal_strlit(";");
            let n = name.len() as int;
            let m = value.text().len() as int;
            assert(text.len() == n + m + 8);
            lemma_stands_at_index(input, pos, text, 3);
            lemma_stands_at_index(input, pos, text, 4 + n);
            lemma_stands_at_index(input, pos, text, 5 + n);
            lemma_stands_at_index(input, pos, text, 6 + n);
            lemma_stands_at_index(input, pos, text, 7 + n + m);
            assert(text.subrange(0, 3) =~= "let"@);
            assert(text.subrange(4, 4 + n) =~= name);
            assert(text.subrange(7 + n, 7 + n + m) =~= value.text());
            lemma_stands_at_part(input, pos, text, 0, 3);
            lemma_stands_at_part(input, pos, text, 4, 4 + n);
            lemma_stands_at_part(input, pos, text, 7 + n, 7 + n + m);
            lemma_step_word(input, pos, "let"@);
            lemma_step_space(input, pos + 3);
            lemma_step_word(input, pos + 4, name);
            lemma_step_space(input, pos + 4 + n);
            lemma_step_symbol(input, pos + 5 + n, Tok::Assign);
            lemma_step_space(input, pos + 6 + n);
            lemma_tokens_of_text(input, pos + 7 + n, value);
            lemma_step_symbol(input, pos + 7 + n + m, Tok::Semicolon);
        },
        Stmt::Return(value) => {
            reveal_strlit("return ");
            let m = value.text().len() as int;
            assert(text.len() == m + 7);
            lemma_stands_at_index(input, pos, text, 6);
            assert(text.subrange(0, 6) =~= "return"@);
            assert(text.subrange(7, 7 + m) =~= value.text());
            lemma_stands_at_part(input, pos, text, 0, 6);
            lemma_stands_at_part(input, pos, text, 7, 7 + m);
            lemma_step_word(input, pos, "return"@);
            lemma_step_space(input, pos + 6);
            lemma_tokens_of_text(input, pos + 7, value);
        },
        Stmt::Expression(value) => {
            lemma_tokens_of_text(input, pos, value);
        },
    }
}

/// The rendering of a program is that of its first statement, followed by
/// that of the statements behind it.
proof fn lemma_block_text_head(program: Seq<Stmt>)
    requires
        program.len() > 0,
    ensures
        block_text(program) == program[0].text() + block_text(program.drop_first()),
    decreases program.len(),
{
    if program.len() == 1 {
        assert(program.drop_last() =~= Seq::<Stmt>::empty());
        assert(program.drop_first() =~= Seq::<Stmt>::empty());
        assert(block_text(program) =~= program[0].text() + block_text(program.drop_first()));
    } else {
        lemma_block_text_head(program.drop_last());
        assert(program.drop_first().drop_last() =~= program.drop_last().drop_first());
        assert(block_text(program) =~= program[0].text() + block_text(program.drop_first()));
    }
}

/// The lexer reads the canonical rendering of a writable program, where it
/// ends the input, as the tokens of the program's canonical form.
#[verifier::spinoff_prover]
proof fn lemma_tokens_of_program(input: Seq<char>, pos: int, program: Seq<Stmt>)
    requires
        writable_program(program),
        stands_at(input, pos, block_text(program)),
        pos + block_text(program).len() == input.len(),
    ensures
        tokens_from(input, pos) =~= program_tokens(program),
    decreases program.len(),
{
    if program.len() == 0 {
        lemma_scan_advances(input, pos);
        reveal(tokens_from);
    } else {
        let first = program[0];
        let rest = program.drop_first();
        let text = block_text(program);
        let n = first.text().len() as int;
        lemma_block_text_head(program);
        assert(text.subrange(0, n) =~= first.text());
        assert(text.subrange(n, text.len() as int) =~= block_text(rest));
        lemma_stands_at_part(input, pos, text, 0, n);
        lemma_stands_at_part(input, pos, text, n, text.len() as int);
        assert(writable_program(rest)) by {
            assert forall|i: int| 0 <= i < rest.len() implies writable_statement(
                #[trigger] rest[i],
            ) && (i < rest.len() - 1 ==> rest[i] is Let) by {
                assert(rest[i] == program[i + 1]);
            }
        }
        if program.len() == 1 {
            assert(block_text(rest).len() == 0);
        }
        lemma_tokens_of_statement(input, pos, first);
        lemma_tokens_of_program(input, pos + n, rest);
    }
}

/// The tokens of the canonical rendering of a writable program are those
/// of its canonical form.
pub proof fn lemma_tokenize_text(program: Seq<Stmt>)
    requires
        writable_program(program),
    ensures
        tokenize(block_text(program)) == program_tokens(program),
{
    let text = block_text(program);
    assert(text.subrange(0, text.len() as int) =~= text);
    lemma_tokens_of_program(text, 0, program);
}

/// A writable expression is in operator form.
proof fn lemma_writable_is_operator_form(expression: Expr)
    requires
        writable(expression),
    ensures
        operator_form(expression),
    decreases expression,
{
    match expression {
        Expr::Prefix(_, right) => {
            lemma_writable_is_operator_form(*right);
        },
        Expr::Infix(left, _, right) => {
            lemma_writable_is_operator_form(*left);
            lemma_writable_is_operator_form(*right);
        },
        _ => {},
    }
}

/// A writable program has a canonical form.
proof fn lemma_writable_is_canonical(program: Seq<Stmt>)
    requires
        writable_program(program),
    ensures
        canonical_program(program),
{
    assert forall|i: int| 0 <= i < program.len() implies operator_statement(
        #[trigger] program[i],
    ) by {
        match program[i] {
            Stmt::Let(_, value) => lemma_writable_is_operator_form(value),
            Stmt::Return(value) => lemma_writable_is_operator_form(value),
            Stmt::Expression(value) => lemma_writable_is_operator_form(value),
        }
    }
}

/// Round trip: the canonical rendering of a writable program is read back
/// as the program that was rendered, and the parser reports no error. So
/// rendering what was read from a rendering gives that rendering again.
pub proof fn lemma_round_trip(program: Seq<Stmt>)
    requires
        writable_program(program),
    ensures
        parse_program(tokenize(block_text(program)), 0).statements == program,
        parse_program(tokenize(block_text(program)), 0).errors.len() == 0,
{
    lemma_tokenize_text(program);
    lemma_writable_is_canonical(program);
    lemma_canonical_round_trip(program);
}

/// Round trip of one expression: the canonical rendering of a writable
/// expression is read back as one expression statement, the expression that
/// was rendered, and the parser reports no error.
pub proof fn lemma_round_trip_expression(expression: Expr)
    requires
        writable(expression),
    ensures
        parse_program(tokenize(expression.text()), 0).statements == seq![
            Stmt::Expression(expression),
        ],
        parse_program(tokenize(expression.text()), 0).errors.len() == 0,
{
    let program = seq![Stmt::Expression(expression)];
    assert(program.drop_last() =~= Seq::<Stmt>::empty());
    assert(block_text(program) == block_text(program.drop_last()) + program.last().text());
    assert(block_text(program) =~= expression.text());
    lemma_round_trip(program);
}

/// A token as the lexer yields it: an identifier carries a word that is
/// an identifier, an integer is not negative.
pub open spec fn lexed_token(token: Tok) -> bool {
    match token {
        Tok::Ident(name) => identifier(name),
        Tok::Int(value) => value >= 0,
        _ => true,
    }
}

/// A sequence of tokens as the lexer yields them.
pub open spec fn lexed(tokens: Seq<Tok>) -> bool {
    forall|i: int| 0 <= i < tokens.len() ==> lexed_token(#[trigger] tokens[i])
}

/// An expression without a conditional.
pub open spec fn conditional_free(expression: Expr) -> bool
    decreases expression,
{
    match expression {
        Expr::Literal(_) | Expr::Int(_) | Expr::Boolean(_) => true,
        Expr::Prefix(_, right) => conditional_free(*right),
        Expr::Infix(left, _, right) => conditional_free(*left) && conditional_free(*right),
        Expr::If(_, _, _) => false,
    }
}

/// The expression of a statement.
pub open spec fn expression_of(statement: Stmt) -> Expr {
    match statement {
        Stmt::Let(_, value) => value,
        Stmt::Return(value) => value,
        Stmt::Expression(value) => value,
    }
}

/// A program without a conditional, in which every statement but the last
/// is a `let`.
pub open spec fn rereadable(program: Seq<Stmt>) -> bool {
    forall|i: int|
        0 <= i < program.len() ==> conditional_free(expression_of(#[trigger] program[i])) && (i
            < program.len() - 1 ==> program[i] is Let)
}

/// Every step of the lexer yields a token as `lexed_token` describes it.
proof fn lemma_scan_lexed(input: Seq<char>, pos: int)
    requires
        0 <= pos <= input.len(),
    ensures
        lexed_token(scan(input, pos).token),
{
    lemma_run_end(input, pos, CharClass::Whitespace);
    let start = run_end(input, pos, CharClass::Whitespace);
    if start < input.len() {
        if letter(input[start]) {
            lemma_run_end(input, start, CharClass::Letter);
            lemma_run_end(input, start + 1, CharClass::Letter);
            let end = run_end(input, start, CharClass::Letter);
            let word = input.subrange(start, end);
            assert forall|i: int| 0 <= i < word.len() implies letter(#[trigger] word[i]) by {
                assert(CharClass::Letter.holds(input[start + i]));
            }
        }
    }
}

/// The lexer yields only tokens as `lexed` describes them.
#[verifier::spinoff_prover]
pub proof fn lemma_tokens_lexed(input: Seq<char>, pos: int)
    ensures
        lexed(tokens_from(input, pos)),
    decreases input.len() - pos,
{
    reveal(tokens_from);
    if 0 <= pos <= input.len() && !(scan(input, pos).token is Eof) {
        lemma_scan_advances(input, pos);
        lemma_scan_lexed(input, pos);
        lemma_tokens_lexed(input, scan(input, pos).next);
    }
}

/// The text of an infix operator's token writes that operator.
proof fn lemma_operator_text(token: Tok)
    requires
        precedence_of(token).rank() > 0,
    ensures
        infix_token(token.text()) is Some,
{
}

/// What the grammar reads as an expression from the tokens of a lexer is
/// writable, unless it holds a conditional.
#[verifier::spinoff_prover]
proof fn lemma_read_expression_writable(tokens: Seq<Tok>, k: nat, precedence: Precedence)
    requires
        lexed(tokens),
    ensures
        match parse_expression(tokens, k, precedence).node {
            Some(expression) => conditional_free(expression) ==> writable(expression),
            None => true,
        },
    decreases remaining(tokens, k), 3nat,
{
    reveal(parse_expression);
    let left = parse_prefix(tokens, k);
    lemma_read_prefix_writable(tokens, k);
    match left.node {
        Some(expression) => {
            lemma_read_infix_writable(tokens, k + left.used, expression, precedence);
        },
        None => {},
    }
}

/// What the grammar reads at the start of an expression from the tokens of
/// a lexer is writable, unless it holds a conditional.
#[verifier::spinoff_prover]
proof fn lemma_read_prefix_writable(tokens: Seq<Tok>, k: nat)
    requires
        lexed(tokens),
    ensures
        match parse_prefix(tokens, k).node {
            Some(expression) => conditional_free(expression) ==> writable(expression),
            None => true,
        },
    decreases remaining(tokens, k), 2nat,
{
    reveal(parse_prefix);
    reveal(parse_if);
    reveal(parse_branches);
    match tok_at(tokens, k) {
        Tok::Lparen => {
            lemma_read_expression_writable(tokens, k + 1, Precedence::Lowest);
        },
        Tok::Bang | Tok::Minus => {
            lemma_read_expression_writable(tokens, k + 1, Precedence::Prefix);
            assert(prefix_token(tok_at(tokens, k).text()) is Some);
        },
        Tok::If => {
            assert(match parse_if(tokens, k).node {
                Some(expression) => expression is If,
                None => true,
            });
        },
        Tok::Ident(name) => {
            assert(lexed_token(tokens[k as int]));
        },
        Tok::Int(value) => {
            assert(lexed_token(tokens[k as int]));
        },
        _ => {},
    }
}

/// What the grammar reads as infix operations behind a writable expression,
/// from the tokens of a lexer, is writable, unless it holds a conditional.
#[verifier::spinoff_prover]
proof fn lemma_read_infix_writable(tokens: Seq<Tok>, k: nat, left: Expr, precedence: Precedence)
    requires
        lexed(tokens),
        conditional_free(left) ==> writable(left),
    ensures
        match parse_infix(tokens, k, left, precedence).node {
            Some(expression) => conditional_free(expression) ==> writable(expression),
            None => true,
        },
    decreases remaining(tokens, k), 2nat,
{
    reveal(parse_infix);
    let operator = tok_at(tokens, k + 1);
    if precedence.rank() < precedence_of(operator).rank() {
        let right = parse_expression(tokens, k + 2, precedence_of(operator));
        lemma_read_expression_writable(tokens, k + 2, precedence_of(operator));
        lemma_operator_text(operator);
        match right.node {
            Some(expression) => {
                lemma_read_infix_writable(
                    tokens,
                    k + 2 + right.used,
                    Expr::Infix(Box::new(left), operator.text(), Box::new(expression)),
                    precedence,
                );
            },
            None => {},
        }
    }
}

/// What the grammar reads as a statement from the tokens of a lexer is
/// writable, unless it holds a conditional.
#[verifier::spinoff_prover]
proof fn lemma_read_statement_writable(tokens: Seq<Tok>, k: nat)
    requires
        lexed(tokens),
    ensures
        match parse_statement(tokens, k).node {
            Some(statement) => conditional_free(expression_of(statement)) ==> writable_statement(
                statement,
            ),
            None => true,
        },
{
    reveal(parse_statement);
    reveal(parse_let_statement);
    reveal(parse_return_statement);
    reveal(parse_expression_statement);
    lemma_read_expression_writable(tokens, k, Precedence::Lowest);
    lemma_read_expression_writable(tokens, k + 1, Precedence::Lowest);
    lemma_read_expression_writable(tokens, k + 3, Precedence::Lowest);
}

/// What the grammar reads as statements from the tokens of a lexer is
/// writable, statement by statement, unless the statement holds a
/// conditional.
#[verifier::spinoff_prover]
proof fn lemma_read_statements_writable(tokens: Seq<Tok>, k: nat)
    requires
        lexed(tokens),
    ensures
        forall|i: int|
            0 <= i < parse_statements(tokens, k, false).statements.len() ==> (conditional_free(
                expression_of(#[trigger] parse_statements(tokens, k, false).statements[i]),
            ) ==> writable_statement(parse_statements(tokens, k, false).statements[i])),
    decreases remaining(tokens, k),
{
    reveal(parse_statements);
    if !(tok_at(tokens, k) is Eof) {
        let first = parse_statement(tokens, k);
        lemma_read_statement_writable(tokens, k);
        lemma_read_statements_writable(tokens, k + first.used + 1);
        let rest = parse_statements(tokens, k + first.used + 1, false).statements;
        let all = parse_statements(tokens, k, false).statements;
        assert(all == node_seq(first.node) + rest);
        assert forall|i: int| 0 <= i < all.len() && conditional_free(
            expression_of(#[trigger] all[i]),
        ) implies writable_statement(all[i]) by {
            if i >= node_seq(first.node).len() {
                assert(all[i] == rest[i - node_seq(first.node).len()]);
            }
        }
    }
}

/// What the parser reads from a text is writable wherever it can be: a
/// program read from any text, if it holds no conditional and each of its
/// statements but the last is a `let`, is a writable program.
pub proof fn lemma_read_is_writable(input: Seq<char>)
    requires
        rereadable(parse_program(tokenize(input), 0).statements),
    ensures
        writable_program(parse_program(tokenize(input), 0).statements),
{
    lemma_tokens_lexed(input, 0);
    lemma_read_statements_writable(tokenize(input), 0);
}

/// Fixed point: the rendering of what the parser reads from a text is read
/// back as the same program, without an error, and so renders as itself
/// again. This holds of every text from which the parser reads a program
/// without a conditional in which each statement but the last is a `let`.
pub proof fn lemma_rendering_is_fixed_point(input: Seq<char>)
    requires
        rereadable(parse_program(tokenize(input), 0).statements),
    ensures
        ({
            let read = parse_program(tokenize(input), 0).statements;
            let again = parse_program(tokenize(block_text(read)), 0);
            &&& again.statements == read
            &&& again.errors.len() == 0
            &&& block_text(again.statements) == block_text(read)
        }),
{
    lemma_read_is_writable(input);
    lemma_round_trip(parse_program(tokenize(input), 0).statements);
}

} // verus!
