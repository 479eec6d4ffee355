//! The parser: a Pratt parser that reads the tokens of a lexer into a
//! program and collects its error messages on the way. What it reads is what
//! the grammar says.
//!
//! The parser calls itself once for each bracket, prefix operator, operand
//! and block that the input nests, and nothing else bounds the depth of its
//! call stack: a caller that reads text from a source it does not trust
//! should bound the nesting of that text first.

use crate::ast::{
    block_view, BlockStatement, Expr, Expression, Program, Statement, Stmt,
};
use crate::grammar::{
    expected_error, parse_block, parse_expression, parse_expression_statement,
    parse_branches, parse_if, parse_infix, parse_let_statement, parse_prefix, parse_program,
    parse_return_statement, parse_statement, parse_statements, precedence_of, remaining,
    skip_to_semicolon, tok_at, Parsed, ParsedBlock, Precedence,
};
use crate::lexer::{lemma_eof_repeats, lemma_scan_advances, scan, tokens_from, Lexer};
use crate::token::{Tok, Token};
use vstd::prelude::*;

verus! {

/// The tokens from position `k` on.
pub open spec fn tail(tokens: Seq<Tok>, k: nat) -> Seq<Tok> {
    if k <= tokens.len() {
        tokens.subrange(k as int, tokens.len() as int)
    } else {
        Seq::empty()
    }
}

/// The texts of a sequence of strings.
pub open spec fn texts(strings: Seq<String>) -> Seq<Seq<char>> {
    Seq::new(strings.len(), |i: int| strings[i]@)
}

/// The model of an expression that may be missing.
pub open spec fn option_expr(expression: Option<Expression>) -> Option<Expr> {
    match expression {
        Some(e) => Some(e@),
        None => None,
    }
}

/// The model of a statement that may be missing.
pub open spec fn option_stmt(statement: Option<Statement>) -> Option<Stmt> {
    match statement {
        Some(s) => Some(s@),
        None => None,
    }
}

/// One step of a lexer whose tokens to come are those of `tokens` from
/// position `k` on yields token `k`, and leaves those from `k + 1` on.
#[verifier::spinoff_prover]
proof fn lemma_token_step(input: Seq<char>, pos: int, tokens: Seq<Tok>, k: nat)
    requires
        0 <= pos <= input.len(),
        tokens_from(input, pos) == tail(tokens, k),
    ensures
        scan(input, pos).token == tok_at(tokens, k),
        tokens_from(input, scan(input, pos).next) == tail(tokens, k + 1),
{
    reveal(tokens_from);
    lemma_scan_advances(input, pos);
    let step = scan(input, pos);
    if step.token is Eof {
        lemma_eof_repeats(input, pos);
        assert(tokens_from(input, pos).len() == 0);
        assert(tokens_from(input, step.next) =~= tail(tokens, k + 1));
    } else {
        assert(tokens_from(input, pos) == seq![step.token] + tokens_from(input, step.next));
        assert(tokens_from(input, pos)[0] == step.token);
        assert(tokens_from(input, step.next) =~= tail(tokens, k + 1)) by {
            assert(tokens_from(input, step.next) =~= tokens_from(input, pos).subrange(
                1,
                tokens_from(input, pos).len() as int,
            ));
        }
    }
}

/// A parser over the tokens of a lexer.
pub struct Parser<'a> {
    lexer: Lexer<'a>,
    cur_token: Token,
    peek_token: Token,
    errors: Vec<String>,
    /// The tokens that the lexer had to give when the parser was made.
    tokens: Ghost<Seq<Tok>>,
    /// The position of the current token among them.
    index: Ghost<nat>,
}

impl<'a> Parser<'a> {
    /// The tokens that the parser reads, without the end-of-input token.
    pub closed spec fn tokens(&self) -> Seq<Tok> {
        self.tokens@
    }

    /// The position of the current token.
    pub closed spec fn index(&self) -> nat {
        self.index@
    }

    /// The error messages collected so far, in the order in which they arose.
    pub closed spec fn error_texts(&self) -> Seq<Seq<char>> {
        texts(self.errors@)
    }

    /// The lexer stands behind the token after the current one.
    #[verifier::opaque]
    closed spec fn lexer_in_step(&self) -> bool {
        &&& self.lexer.wf()
        &&& self.lexer.remaining() == tail(self.tokens@, self.index@ + 2)
    }

    /// The invariant of a parser: it holds the current token and the one
    /// after it, and its lexer stands behind these two.
    pub closed spec fn wf(&self) -> bool {
        &&& self.lexer_in_step()
        &&& self.cur_token@ == tok_at(self.tokens@, self.index@)
        &&& self.peek_token@ == tok_at(self.tokens@, self.index@ + 1)
    }

    /// The parser is well formed, reads `tokens`, stands at position
    /// `index` and has collected the error messages `errors`.
    pub open spec fn reached(&self, tokens: Seq<Tok>, index: nat, errors: Seq<Seq<char>>) -> bool {
        &&& self.wf()
        &&& self.tokens() == tokens
        &&& self.index() == index
        &&& self.error_texts() =~= errors
    }

    /// Coming from the state `before`, the parser has read what `parsed`
    /// says: it yields the node `node`, has moved forward as far, and has
    /// added the same error messages.
    pub open spec fn produced<T>(&self, before: Self, node: Option<T>, parsed: Parsed<T>) -> bool {
        &&& node == parsed.node
        &&& self.reached(
            before.tokens(),
            before.index() + parsed.used,
            before.error_texts() + parsed.errors,
        )
    }

    /// Coming from the state `before`, the parser has read the statements
    /// that `parsed` says.
    pub open spec fn produced_block(
        &self,
        before: Self,
        statements: Seq<Stmt>,
        parsed: ParsedBlock,
    ) -> bool {
        &&& statements == parsed.statements
        &&& self.reached(
            before.tokens(),
            before.index() + parsed.used,
            before.error_texts() + parsed.errors,
        )
    }

    /// A parser at the first token that `lexer` has to give.
    pub fn new(lexer: Lexer<'a>) -> (parser: Self)
        requires
            lexer.wf(),
        ensures
            parser.reached(lexer.remaining(), 0, Seq::empty()),
    {
        reveal(Parser::lexer_in_step);
        let mut lexer = lexer;
        let ghost tokens = lexer.remaining();
        proof {
            lexer.lemma_pos_in_source();
            assert(tokens =~= tail(tokens, 0));
            lemma_token_step(lexer.source(), lexer.pos(), tokens, 0);
        }
        let cur_token = lexer.next_token();
        proof {
            lexer.lemma_pos_in_source();
            lemma_token_step(lexer.source(), lexer.pos(), tokens, 1);
        }
        let peek_token = lexer.next_token();
        Self {
            lexer,
            cur_token,
            peek_token,
            errors: Vec::new(),
            tokens: Ghost(tokens),
            index: Ghost(0),
        }
    }

    /// The error messages collected so far, in the order in which they arose.
    pub fn errors(&self) -> (errors: Vec<String>)
        ensures
            texts(errors@) == self.error_texts(),
    {
        let mut errors: Vec<String> = Vec::new();
        let mut i: usize = 0;
        while i < self.errors.len()
            invariant
                i <= self.errors.len(),
                errors.len() == i,
                forall|j: int| 0 <= j < i ==> errors[j]@ == self.errors[j]@,
            decreases self.errors.len() - i,
        {
            errors.push(self.errors[i].clone());
            i += 1;
        }
        assert(texts(errors@) =~= self.error_texts());
        errors
    }

    /// Moves on by one token.
    fn next_token(&mut self)
        requires
            old(self).wf(),
        ensures
            final(self).reached(
                old(self).tokens(),
                old(self).index() + 1,
                old(self).error_texts(),
            ),
    {
        reveal(Parser::lexer_in_step);
        proof {
            self.lexer.lemma_pos_in_source();
            lemma_token_step(
                self.lexer.source(),
                self.lexer.pos(),
                self.tokens@,
                self.index@ + 2,
            );
        }
        self.cur_token = self.peek_token.clone();
        self.peek_token = self.lexer.next_token();
        self.index = Ghost((self.index@ + 1) as nat);
    }

    /// Adds an error message.
    fn push_error(&mut self, message: String)
        requires
            old(self).wf(),
        ensures
            final(self).reached(
                old(self).tokens(),
                old(self).index(),
                old(self).error_texts().push(message@),
            ),
    {
        reveal(Parser::lexer_in_step);
        self.errors.push(message);
    }

    /// Reports that the token after the current one is not `token`.
    fn peek_error(&mut self, token: Token)
        requires
            old(self).wf(),
        ensures
            final(self).reached(
                old(self).tokens(),
                old(self).index(),
                old(self).error_texts().push(
                    expected_error(token@, tok_at(old(self).tokens(), old(self).index() + 1)),
                ),
            ),
    {
        let mut message = String::from_str("expected next token to be ");
        message.append(token.debug_string().as_str());
        message.append(", got ");
        message.append(self.peek_token.debug_string().as_str());
        message.append(" instead");
        self.push_error(message);
    }

    /// Moves on to the next token where it is `token`; reports an error where it
    /// is not.
    fn expect_peek(&mut self, token: Token) -> (found: bool)
        requires
            old(self).wf(),
        ensures
            found == (tok_at(old(self).tokens(), old(self).index() + 1) == token@),
            found ==> final(self).reached(
                old(self).tokens(),
                old(self).index() + 1,
                old(self).error_texts(),
            ),
            !found ==> final(self).reached(
                old(self).tokens(),
                old(self).index(),
                old(self).error_texts().push(
                    expected_error(token@, tok_at(old(self).tokens(), old(self).index() + 1)),
                ),
            ),
    {
        if self.peek_token.same_as(&token) {
            self.next_token();
            return true;
        }
        self.peek_error(token);
        false
    }

    /// The precedence of `token` as an infix operator.
    fn precedence_for(&self, token: &Token) -> (precedence: Precedence)
        ensures
            precedence == precedence_of(token@),
    {
        match token {
            Token::Eq | Token::NotEq => Precedence::Equals,
            Token::Lt | Token::Gt => Precedence::LessGreater,
            Token::Plus | Token::Minus => Precedence::Sum,
            Token::Slash | Token::Asterisk => Precedence::Product,
            _ => Precedence::Lowest,
        }
    }

    /// Moves to the next semicolon, or to the end of input where none follows.
    fn skip_to_semicolon(&mut self)
        requires
            old(self).wf(),
        ensures
            final(self).reached(
                old(self).tokens(),
                old(self).index() + skip_to_semicolon(old(self).tokens(), old(self).index()),
                old(self).error_texts(),
            ),
    {
        while !self.cur_token.same_as(&Token::Semicolon) && !self.cur_token.same_as(&Token::Eof)
            invariant
                self.wf(),
                self.tokens() == old(self).tokens(),
                self.error_texts() == old(self).error_texts(),
                self.index() >= old(self).index(),
                old(self).index() + skip_to_semicolon(old(self).tokens(), old(self).index())
                    == self.index() + skip_to_semicolon(self.tokens(), self.index()),
            decreases remaining(self.tokens(), self.index()),
        {
            self.next_token();
        }
    }

    /// Reads a whole program, up to the end of input. A statement that
    /// cannot be read leaves its error messages and no node; reading goes on
    /// behind it.
    #[verifier::spinoff_prover]
    pub fn parse_program(&mut self) -> (program: Program)
        requires
            old(self).wf(),
        ensures
            final(self).produced_block(
                *old(self),
                program@,
                parse_program(old(self).tokens(), old(self).index()),
            ),
    {
        let mut program = Program::new();
        let ghost tokens = self.tokens();
        let ghost start = self.index();
        let ghost errors = self.error_texts();
        reveal(parse_statements);
        while !self.cur_token.same_as(&Token::Eof)
            invariant
                self.wf(),
                self.tokens() == tokens,
                self.index() >= start,
                ({
                    let whole = parse_statements(tokens, start, false);
                    let rest = parse_statements(tokens, self.index(), false);
                    &&& whole.statements =~= program@ + rest.statements
                    &&& start + whole.used == self.index() + rest.used
                    &&& errors + whole.errors =~= self.error_texts() + rest.errors
                }),
            decreases remaining(tokens, self.index()),
        {
            reveal(parse_statements);
            let stmt = self.parse_statement();
            if let Some(stmt) = stmt {
                program.push(stmt);
            }
            self.next_token();
        }
        program
    }

    /// Reads the statement that starts at the current token.
    #[verifier::spinoff_prover]
    fn parse_statement(&mut self) -> (result: Option<Statement>)
        requires
            old(self).wf(),
        ensures
            final(self).produced(
                *old(self),
                option_stmt(result),
                parse_statement(old(self).tokens(), old(self).index()),
            ),
        decreases remaining(old(self).tokens(), old(self).index()), 5nat,
    {
        reveal(parse_statement);
        if self.cur_token.same_as(&Token::Let) {
            self.parse_let_statement()
        } else if self.cur_token.same_as(&Token::Return) {
            self.parse_return_statement()
        } else {
            self.parse_expression_statement()
        }
    }

    /// Reads a `let` statement, up to the semicolon that ends it.
    #[verifier::spinoff_prover]
    fn parse_let_statement(&mut self) -> (result: Option<Statement>)
        requires
            old(self).wf(),
        ensures
            final(self).produced(
                *old(self),
                option_stmt(result),
                parse_let_statement(old(self).tokens(), old(self).index()),
            ),
        decreases remaining(old(self).tokens(), old(self).index()), 4nat,
    {
        reveal(parse_let_statement);
        let ident = match &self.peek_token {
            Token::Ident(name) => name.clone(),
            _ => {
                self.peek_error(Token::Ident(String::new()));
                return None;
            },
        };
        self.next_token();
        if !self.expect_peek(Token::Assign) {
            return None;
        }
        self.next_token();
        let expr = match self.parse_expression(Precedence::Lowest) {
            Some(expr) => expr,
            None => {
                return None;
            },
        };
        self.skip_to_semicolon();
        Some(Statement::Let(ident, expr))
    }

    /// Reads a `return` statement, up to the semicolon that ends it.
    #[verifier::spinoff_prover]
    fn parse_return_statement(&mut self) -> (result: Option<Statement>)
        requires
            old(self).wf(),
        ensures
            final(self).produced(
                *old(self),
                option_stmt(result),
                parse_return_statement(old(self).tokens(), old(self).index()),
            ),
        decreases remaining(old(self).tokens(), old(self).index()), 4nat,
    {
        reveal(parse_return_statement);
        self.next_token();
        let expr = match self.parse_expression(Precedence::Lowest) {
            Some(expr) => expr,
            None => {
                return None;
            },
        };
        self.skip_to_semicolon();
        Some(Statement::Return(expr))
    }

    /// Reads an expression as a statement, with the semicolon behind it if
    /// there is one.
    #[verifier::spinoff_prover]
    fn parse_expression_statement(&mut self) -> (result: Option<Statement>)
        requires
            old(self).wf(),
        ensures
            final(self).produced(
                *old(self),
                option_stmt(result),
                parse_expression_statement(old(self).tokens(), old(self).index()),
            ),
        decreases remaining(old(self).tokens(), old(self).index()), 4nat,
    {
        reveal(parse_expression_statement);
        let expr = self.parse_expression(Precedence::Lowest);
        if let Some(expr) = expr {
            if self.peek_token.same_as(&Token::Semicolon) {
                self.next_token();
            }
            return Some(Statement::Expression(expr));
        }
        None
    }

    /// Reads an expression, as far as its operators bind more strongly
    /// than `pre`, and stops on its last token.
    #[verifier::spinoff_prover]
    fn parse_expression(&mut self, pre: Precedence) -> (result: Option<Expression>)
        requires
            old(self).wf(),
        ensures
            final(self).produced(
                *old(self),
                option_expr(result),
                parse_expression(old(self).tokens(), old(self).index(), pre),
            ),
        decreases remaining(old(self).tokens(), old(self).index()), 3nat,
    {
        reveal(parse_expression);
        reveal(parse_infix);
        let ghost tokens = self.tokens();
        let mut left_expr = match self.parse_prefix() {
            Some(expr) => expr,
            None => {
                return None;
            },
        };
        let ghost start = self.index();
        let ghost errors = self.error_texts();
        let ghost first = left_expr@;
        while pre.level() < self.precedence_for(&self.peek_token).level()
            invariant
                self.wf(),
                self.tokens() == tokens,
                tokens == old(self).tokens(),
                self.index() >= start,
                ({
                    let left = parse_prefix(tokens, old(self).index());
                    &&& left.node == Some(first)
                    &&& old(self).index() + left.used == start
                    &&& old(self).error_texts() + left.errors =~= errors
                }),
                ({
                    let whole = parse_infix(tokens, start, first, pre);
                    let rest = parse_infix(tokens, self.index(), left_expr@, pre);
                    &&& whole.node == rest.node
                    &&& start + whole.used == self.index() + rest.used
                    &&& errors + whole.errors =~= self.error_texts() + rest.errors
                }),
            decreases remaining(tokens, self.index()),
        {
            reveal(parse_expression);
            reveal(parse_infix);
            self.next_token();
            let op = self.cur_token.to_string();
            let cur_pre = self.precedence_for(&self.cur_token);
            self.next_token();
            let expr = match self.parse_expression(cur_pre) {
                Some(expr) => expr,
                None => {
                    return None;
                },
            };
            left_expr = Expression::Infix(Box::new(left_expr), op, Box::new(expr));
        }
        Some(left_expr)
    }

    /// Reads what may start an expression: a name, a literal, an
    /// expression in brackets, a prefix operation or a conditional.
    #[verifier::spinoff_prover]
    fn parse_prefix(&mut self) -> (result: Option<Expression>)
        requires
            old(self).wf(),
        ensures
            final(self).produced(
                *old(self),
                option_expr(result),
                parse_prefix(old(self).tokens(), old(self).index()),
            ),
        decreases remaining(old(self).tokens(), old(self).index()), 2nat,
    {
        reveal(parse_prefix);
        match &self.cur_token {
            Token::Ident(ident) => Some(Expression::Literal(ident.clone())),
            Token::Int(i) => Some(Expression::Int(*i)),
            Token::True => Some(Expression::Boolean(true)),
            Token::False => Some(Expression::Boolean(false)),
            Token::Lparen => {
                self.next_token();
                let expr = match self.parse_expression(Precedence::Lowest) {
                    Some(expr) => expr,
                    None => {
                        return None;
                    },
                };
                if !self.expect_peek(Token::Rparen) {
                    return None;
                }
                Some(expr)
            },
            Token::Bang | Token::Minus => {
                let op = self.cur_token.to_string();
                self.next_token();
                let expr = match self.parse_expression(Precedence::Prefix) {
                    Some(expr) => expr,
                    None => {
                        return None;
                    },
                };
                Some(Expression::Prefix(op, Box::new(expr)))
            },
            Token::If => self.parse_if_expression(),
            _ => {
                let mut message = String::from_str("undefined expression for ");
                message.append(self.cur_token.to_string().as_str());
                message.append(" found");
                self.push_error(message);
                None
            },
        }
    }

    /// Reads a conditional, where the current token is its `if`.
    #[verifier::spinoff_prover]
    fn parse_if_expression(&mut self) -> (result: Option<Expression>)
        requires
            old(self).wf(),
            tok_at(old(self).tokens(), old(self).index()) is If,
        ensures
            final(self).produced(
                *old(self),
                option_expr(result),
                parse_if(old(self).tokens(), old(self).index()),
            ),
        decreases remaining(old(self).tokens(), old(self).index()), 1nat,
    {
        reveal(parse_if);
        if !self.expect_peek(Token::Lparen) {
            return None;
        }
        self.next_token();
        let cond = match self.parse_expression(Precedence::Lowest) {
            Some(expr) => expr,
            None => {
                return None;
            },
        };
        self.parse_branches(cond)
    }

    /// Reads what follows the condition `cond` of a conditional: the
    /// closing bracket, the consequence and, if there is one, the
    /// alternative.
    #[verifier::spinoff_prover]
    fn parse_branches(&mut self, cond: Expression) -> (result: Option<Expression>)
        requires
            old(self).wf(),
        ensures
            final(self).produced(
                *old(self),
                option_expr(result),
                parse_branches(old(self).tokens(), old(self).index(), cond@),
            ),
        decreases remaining(old(self).tokens(), old(self).index()), 0nat,
    {
        reveal(parse_branches);
        if !self.expect_peek(Token::Rparen) {
            return None;
        }
        if !self.expect_peek(Token::Lbrace) {
            return None;
        }
        let conseq = self.parse_block_statement();
        if self.peek_token.same_as(&Token::Else) {
            self.next_token();
            if !self.expect_peek(Token::Lbrace) {
                return None;
            }
            let alter = self.parse_block_statement();
            Some(Expression::If(Box::new(cond), conseq, Some(alter)))
        } else {
            Some(Expression::If(Box::new(cond), conseq, None))
        }
    }

    /// Reads a block, where the current token is its opening brace, and
    /// stops at its closing brace or at the end of input.
    #[verifier::spinoff_prover]
    fn parse_block_statement(&mut self) -> (block: BlockStatement)
        requires
            old(self).wf(),
        ensures
            final(self).produced_block(
                *old(self),
                block_view(&block),
                parse_block(old(self).tokens(), old(self).index()),
            ),
        decreases remaining(old(self).tokens(), old(self).index()), 7nat,
    {
        reveal(parse_block);
        reveal(parse_statements);
        let mut block_stmt: BlockStatement = Vec::new();
        let ghost tokens = self.tokens();
        let ghost errors = self.error_texts();
        self.next_token();
        let ghost start = self.index();
        while !self.cur_token.same_as(&Token::Rbrace) && !self.cur_token.same_as(&Token::Eof)
            invariant
                self.wf(),
                self.tokens() == tokens,
                tokens == old(self).tokens(),
                self.index() >= start,
                start == old(self).index() + 1,
                ({
                    let whole = parse_statements(tokens, start, true);
                    let rest = parse_statements(tokens, self.index(), true);
                    &&& whole.statements =~= block_view(&block_stmt) + rest.statements
                    &&& start + whole.used == self.index() + rest.used
                    &&& errors + whole.errors =~= self.error_texts() + rest.errors
                }),
            decreases remaining(tokens, self.index()),
        {
            reveal(parse_statements);
            let stmt = self.parse_statement();
            if let Some(stmt) = stmt {
                block_stmt.push(stmt);
            }
            self.next_token();
        }
        block_stmt
    }
}

} // verus!
