//! The evaluator: a walk over the syntax tree that yields a runtime value.
//!
//! Every failure is a value: an error signal that stops the evaluation of
//! whatever encloses it. A `return` inside a block is a value too: a return
//! signal, which every enclosing block hands on still wrapped and which the
//! program alone unwraps. Arithmetic wraps around in 64 bits, and a division
//! by zero is an error signal like any other.
//!
//! The evaluator calls itself once for each level of nesting of the tree,
//! and nothing else bounds the depth of its call stack: a caller that runs
//! trees from a source it does not trust should bound their depth first.

use crate::ast::{block_view, Expr, Expression, Program, Statement, Statements, Stmt};
use crate::object::{option_value, signal_free, Environment, Object, Value};
use crate::text::str_eq;
use vstd::prelude::*;

verus! {

/// The bindings of an environment, as the evaluator sees them.
pub type Bindings = Map<Seq<char>, Value>;

/// The 64-bit two's complement number that is congruent to `x` modulo 2^64.
pub open spec fn wrap(x: int) -> i64 {
    let low = x % 0x1_0000_0000_0000_0000;
    if low > i64::MAX {
        (low - 0x1_0000_0000_0000_0000) as i64
    } else {
        low as i64
    }
}

/// The quotient of `x` by `d`, rounded towards zero.
pub open spec fn truncated_quotient(x: int, d: int) -> int
    recommends
        d != 0,
{
    if x >= 0 && d > 0 {
        x / d
    } else if x < 0 && d < 0 {
        (-x) / (-d)
    } else if x < 0 {
        -((-x) / d)
    } else {
        -(x / (-d))
    }
}

/// The value of a prefix operation on an operand that is no error signal.
pub open spec fn eval_prefix(operator: Seq<char>, right: Value) -> Value {
    if operator == "!"@ {
        match right {
            Value::Boolean(b) => Value::Boolean(!b),
            Value::Integer(i) => Value::Boolean(i == 0),
            _ => Value::Error("unknown prefix type: "@ + right.text()),
        }
    } else if operator == "-"@ {
        match right {
            Value::Integer(i) => Value::Integer(wrap(-i)),
            _ => Value::Error("unknown operator: -"@ + right.text()),
        }
    } else {
        Value::Error("unknown operator: "@ + operator + right.text())
    }
}

/// The text `left operator right`, as error messages show an operation.
pub open spec fn operation_text(left: Value, operator: Seq<char>, right: Value) -> Seq<char> {
    left.text() + " "@ + operator + " "@ + right.text()
}

/// The value of an infix operation on two integers.
pub open spec fn eval_integer_infix(left: i64, operator: Seq<char>, right: i64) -> Value {
    if operator == "+"@ {
        Value::Integer(wrap(left + right))
    } else if operator == "-"@ {
        Value::Integer(wrap(left - right))
    } else if operator == "*"@ {
        Value::Integer(wrap(left * right))
    } else if operator == "/"@ {
        if right == 0 {
            Value::Error(
                "division by zero: "@ + operation_text(
                    Value::Integer(left),
                    operator,
                    Value::Integer(right),
                ),
            )
        } else {
            Value::Integer(wrap(truncated_quotient(left as int, right as int)))
        }
    } else if operator == "<"@ {
        Value::Boolean(left < right)
    } else if operator == ">"@ {
        Value::Boolean(left > right)
    } else if operator == "=="@ {
        Value::Boolean(left == right)
    } else if operator == "!="@ {
        Value::Boolean(left != right)
    } else {
        Value::Error(
            "unknown operator: "@ + operation_text(
                Value::Integer(left),
                operator,
                Value::Integer(right),
            ),
        )
    }
}

/// The value of an infix operation on two operands, neither an error signal.
/// Operands that are not both integers can only be compared for equality,
/// and values of different kinds are unequal.
pub open spec fn eval_infix(left: Value, operator: Seq<char>, right: Value) -> Value {
    match (left, right) {
        (Value::Integer(l), Value::Integer(r)) => eval_integer_infix(l, operator, r),
        _ => if operator == "=="@ {
            Value::Boolean(left == right)
        } else if operator == "!="@ {
            Value::Boolean(left != right)
        } else {
            Value::Error("mismatch expression operation: "@ + operation_text(left, operator, right))
        },
    }
}

/// The value that a conditional takes from the block it chose: the block's
/// value, or null where the block yields none.
pub open spec fn block_value(outcome: Option<Value>) -> Value {
    match outcome {
        Some(value) => value,
        None => Value::Null,
    }
}

/// The value of an expression under the bindings `env`.
pub open spec fn eval_expr(expression: Expr, env: Bindings) -> Value
    decreases expression, 0nat,
{
    match expression {
        Expr::Int(value) => Value::Integer(value),
        Expr::Boolean(value) => Value::Boolean(value),
        Expr::Literal(name) => if env.contains_key(name) {
            env[name]
        } else {
            Value::Error("identifier not found: "@ + name)
        },
        Expr::Prefix(operator, right) => {
            let right = eval_expr(*right, env);
            if right is Error {
                right
            } else {
                eval_prefix(operator, right)
            }
        },
        Expr::Infix(left, operator, right) => {
            let left = eval_expr(*left, env);
            if left is Error {
                left
            } else {
                let right = eval_expr(*right, env);
                if right is Error {
                    right
                } else {
                    eval_infix(left, operator, right)
                }
            }
        },
        Expr::If(condition, consequence, alternative) => {
            let condition = eval_expr(*condition, env);
            match condition {
                Value::Error(_) => condition,
                Value::Boolean(false) | Value::Null => match alternative {
                    Some(block) => block_value(eval_block_from(block, 0, env, None)),
                    None => Value::Null,
                },
                _ => block_value(eval_block_from(consequence, 0, env, None)),
            }
        },
    }
}

/// The outcome of the statements of a block from number `i` on, where
/// `running` is the value of the expression statement before them. A block
/// stops at the first statement that yields a signal and hands the signal
/// on as it is: a return signal stays wrapped, so that it ends every block
/// around this one too, and only the program takes the value out of it. A
/// `return` statement wraps its value in a return signal. A block binds
/// nothing: it passes over `let` statements.
pub open spec fn eval_block_from(
    block: Seq<Stmt>,
    i: int,
    env: Bindings,
    running: Option<Value>,
) -> Option<Value>
    decreases block, block.len() - i,
{
    if i < 0 || i >= block.len() {
        running
    } else {
        match block[i] {
            Stmt::Expression(expression) => {
                let value = eval_expr(expression, env);
                if value.is_signal() {
                    Some(value)
                } else {
                    eval_block_from(block, i + 1, env, Some(value))
                }
            },
            Stmt::Return(expression) => {
                let value = eval_expr(expression, env);
                if value is Error {
                    Some(value)
                } else {
                    Some(Value::Return(Box::new(value)))
                }
            },
            Stmt::Let(_, _) => eval_block_from(block, i + 1, env, running),
        }
    }
}

/// The outcome of a block: `None` where no statement of it yields a value.
pub open spec fn eval_block(block: Seq<Stmt>, env: Bindings) -> Option<Value> {
    eval_block_from(block, 0, env, None)
}

/// What running a program leaves behind: its result and the bindings.
pub struct Outcome {
    pub result: Option<Value>,
    pub env: Bindings,
}

/// The outcome of the statements of a program from number `i` on, where
/// `running` is the result so far.
pub open spec fn run_from(
    program: Seq<Stmt>,
    i: int,
    env: Bindings,
    running: Option<Value>,
) -> Outcome
    decreases program.len() - i,
{
    if i < 0 || i >= program.len() {
        Outcome { result: running, env }
    } else {
        match program[i] {
            Stmt::Expression(expression) => {
                let value = eval_expr(expression, env);
                match value {
                    Value::Return(inner) => Outcome { result: Some(*inner), env },
                    Value::Error(_) => Outcome { result: Some(value), env },
                    _ => run_from(program, i + 1, env, Some(value)),
                }
            },
            Stmt::Let(name, expression) => {
                let value = eval_expr(expression, env);
                match value {
                    Value::Return(inner) => Outcome { result: Some(*inner), env },
                    Value::Error(_) => Outcome { result: Some(value), env },
                    _ => run_from(program, i + 1, env.insert(name, value), None),
                }
            },
            Stmt::Return(expression) => Outcome { result: Some(eval_expr(expression, env)), env },
        }
    }
}

/// The outcome of a program that starts under the bindings `env`.
pub open spec fn run(program: Seq<Stmt>, env: Bindings) -> Outcome {
    run_from(program, 0, env, None)
}

/// Wrapping addition and subtraction compute the sum and the difference
/// reduced to 64 bits.
proof fn lemma_wrapping_sum(x: i64, y: i64)
    ensures
        vstd::wrapping::i64_specs::wrapping_add(x, y) == wrap(x + y),
        vstd::wrapping::i64_specs::wrapping_sub(x, y) == wrap(x - y),
        vstd::wrapping::i64_specs::wrapping_mul(x, y) == wrap(x * y),
{
}

/// Writes `left operator right`, as error messages show an operation.
fn operation_string(left: &Object, operator: &str, right: &Object) -> (s: String)
    ensures
        s@ == operation_text(left@, operator@, right@),
{
    let mut s = left.to_string();
    s.append(" ");
    s.append(operator);
    s.append(" ");
    s.append(right.to_string().as_str());
    s
}

/// Applies a prefix operator to its operand.
fn eval_prefix_expression(operator: &str, right: Object) -> (value: Object)
    requires
        !(right@ is Error),
    ensures
        value@ == eval_prefix(operator@, right@),
{
    if str_eq(operator, "!") {
        match right {
            Object::Boolean(b) => Object::Boolean(!b),
            Object::Integer(i) => Object::Boolean(i == 0),
            _ => {
                let mut message = String::from_str("unknown prefix type: ");
                message.append(right.to_string().as_str());
                Object::Error(message)
            },
        }
    } else if str_eq(operator, "-") {
        match right {
            Object::Integer(i) => {
                proof {
                    lemma_wrapping_sum(0, i);
                }
                Object::Integer(0i64.wrapping_sub(i))
            },
            _ => {
                let mut message = String::from_str("unknown operator: -");
                message.append(right.to_string().as_str());
                Object::Error(message)
            },
        }
    } else {
        let mut message = String::from_str("unknown operator: ");
        message.append(operator);
        message.append(right.to_string().as_str());
        Object::Error(message)
    }
}

/// Applies an infix operator to two integers.
fn eval_integer_infix_expression(left: i64, operator: &str, right: i64) -> (value: Object)
    ensures
        value@ == eval_integer_infix(left, operator@, right),
{
    proof {
        lemma_wrapping_sum(left, right);
    }
    if str_eq(operator, "+") {
        Object::Integer(left.wrapping_add(right))
    } else if str_eq(operator, "-") {
        Object::Integer(left.wrapping_sub(right))
    } else if str_eq(operator, "*") {
        Object::Integer(left.wrapping_mul(right))
    } else if str_eq(operator, "/") {
        match left.checked_div(right) {
            Some(quotient) => Object::Integer(quotient),
            None => {
                if right == 0 {
                    let mut message = String::from_str("division by zero: ");
                    message.append(
                        operation_string(
                            &Object::Integer(left),
                            operator,
                            &Object::Integer(right),
                        ).as_str(),
                    );
                    Object::Error(message)
                } else {
                    Object::Integer(i64::MIN)
                }
            },
        }
    } else if str_eq(operator, "<") {
        Object::Boolean(left < right)
    } else if str_eq(operator, ">") {
        Object::Boolean(left > right)
    } else if str_eq(operator, "==") {
        Object::Boolean(left == right)
    } else if str_eq(operator, "!=") {
        Object::Boolean(left != right)
    } else {
        let mut message = String::from_str("unknown operator: ");
        message.append(
            operation_string(&Object::Integer(left), operator, &Object::Integer(right)).as_str(),
        );
        Object::Error(message)
    }
}

/// Applies an infix operator to its two operands.
fn eval_infix_expression(left: Object, operator: &str, right: Object) -> (value: Object)
    requires
        !(left@ is Error),
        !(right@ is Error),
    ensures
        value@ == eval_infix(left@, operator@, right@),
{
    match (&left, &right) {
        (Object::Integer(l), Object::Integer(r)) => eval_integer_infix_expression(
            *l,
            operator,
            *r,
        ),
        _ => {
            if str_eq(operator, "==") {
                Object::Boolean(left.same_as(&right))
            } else if str_eq(operator, "!=") {
                Object::Boolean(!left.same_as(&right))
            } else {
                let mut message = String::from_str("mismatch expression operation: ");
                message.append(operation_string(&left, operator, &right).as_str());
                Object::Error(message)
            }
        },
    }
}

/// The value that a conditional takes from the block it chose.
fn value_of_block(outcome: Option<Object>) -> (value: Object)
    ensures
        value@ == block_value(option_value(outcome)),
{
    match outcome {
        Some(value) => value,
        None => Object::Null,
    }
}

/// Evaluates an expression under the bindings of `env`.
pub fn eval_expression(expr: &Expression, env: &Environment) -> (value: Object)
    ensures
        value@ == eval_expr(expr@, env@),
    decreases expr, 0nat,
{
    match expr {
        Expression::Int(i) => Object::Integer(*i),
        Expression::Boolean(b) => Object::Boolean(*b),
        Expression::Literal(name) => {
            match env.get(name.as_str()) {
                Some(object) => object.clone(),
                None => {
                    let mut message = String::from_str("identifier not found: ");
                    message.append(name.as_str());
                    Object::Error(message)
                },
            }
        },
        Expression::Prefix(operator, right) => {
            let right = eval_expression(right, env);
            if let Object::Error(message) = right {
                return Object::Error(message);
            }
            eval_prefix_expression(operator.as_str(), right)
        },
        Expression::Infix(left, operator, right) => {
            let left = eval_expression(left, env);
            if let Object::Error(message) = left {
                return Object::Error(message);
            }
            let right = eval_expression(right, env);
            if let Object::Error(message) = right {
                return Object::Error(message);
            }
            eval_infix_expression(left, operator.as_str(), right)
        },
        Expression::If(condition, consequence, alternative) => {
            let condition = eval_expression(condition, env);
            match condition {
                Object::Error(message) => Object::Error(message),
                Object::Boolean(false) | Object::Null => match alternative {
                    Some(block) => value_of_block(eval_block_statements(block, env)),
                    None => Object::Null,
                },
                _ => value_of_block(eval_block_statements(consequence, env)),
            }
        },
    }
}

/// Evaluates the statements of a block, in order, up to the first that
/// returns or fails, and hands a signal on as it is: the return signal of a
/// nested block leaves this block still wrapped.
pub fn eval_block_statements(stmts: &Statements, env: &Environment) -> (outcome: Option<Object>)
    ensures
        option_value(outcome) == eval_block(block_view(stmts), env@),
    decreases stmts, 0nat,
{
    let ghost block = block_view(stmts);
    let mut result: Option<Object> = None;
    let mut i: usize = 0;
    while i < stmts.len()
        invariant
            i <= stmts.len(),
            block == block_view(stmts),
            eval_block(block, env@) == eval_block_from(block, i as int, env@, option_value(result)),
        decreases stmts.len() - i,
    {
        match &stmts[i] {
            Statement::Expression(expr) => {
                let value = eval_expression(expr, env);
                match value {
                    Object::Return(inner) => {
                        return Some(Object::Return(inner));
                    },
                    Object::Error(message) => {
                        return Some(Object::Error(message));
                    },
                    _ => {
                        result = Some(value);
                    },
                }
            },
            Statement::Return(expr) => {
                let value = eval_expression(expr, env);
                if let Object::Error(message) = value {
                    return Some(Object::Error(message));
                }
                return Some(Object::Return(Box::new(value)));
            },
            Statement::Let(_, _) => {},
        }
        i += 1;
    }
    result
}

/// Runs a program: evaluates its statements in order, binds what its `let`
/// statements name, and stops at the first statement that returns or fails.
/// A signal is never bound: a `let` whose value is one stops the program as
/// an expression statement would. The result is `None` where the program is
/// empty or ends with a `let`.
pub fn eval_program(program: Program, env: &mut Environment) -> (result: Option<Object>)
    ensures
        option_value(result) == run(program@, old(env)@).result,
        final(env)@ == run(program@, old(env)@).env,
        old(env).wf() ==> final(env).wf(),
{
    let stmts = program.all();
    let ghost model = program@;
    let mut result: Option<Object> = None;
    let mut i: usize = 0;
    while i < stmts.len()
        invariant
            i <= stmts.len(),
            model == program@,
            model == block_view(stmts),
            run(model, old(env)@) == run_from(model, i as int, env@, option_value(result)),
            old(env).wf() ==> env.wf(),
        decreases stmts.len() - i,
    {
        assert(model[i as int] == stmts[i as int]@);
        match &stmts[i] {
            Statement::Expression(expr) => {
                let value = eval_expression(expr, env);
                match value {
                    Object::Return(inner) => {
                        return Some(*inner);
                    },
                    Object::Error(message) => {
                        return Some(Object::Error(message));
                    },
                    _ => {
                        result = Some(value);
                    },
                }
            },
            Statement::Let(name, expr) => {
                let value = eval_expression(expr, env);
                match value {
                    Object::Return(inner) => {
                        return Some(*inner);
                    },
                    Object::Error(message) => {
                        return Some(Object::Error(message));
                    },
                    _ => {
                        env.insert(name.clone(), value);
                        result = None;
                    },
                }
            },
            Statement::Return(expr) => {
                return Some(eval_expression(expr, env));
            },
        }
        i += 1;
    }
    result
}

/// Whether an outcome's result is an error signal.
pub open spec fn is_error(result: Option<Value>) -> bool {
    match result {
        Some(value) => value is Error,
        None => false,
    }
}

/// The running result of a program is never an error signal: where the
/// statements from number `i` on end in an error, statements that follow the
/// program change nothing.
proof fn lemma_error_stops_from(
    program: Seq<Stmt>,
    rest: Seq<Stmt>,
    i: int,
    env: Bindings,
    running: Option<Value>,
)
    requires
        0 <= i <= program.len(),
        !is_error(running),
        is_error(run_from(program, i, env, running).result),
    ensures
        run_from(program + rest, i, env, running) == run_from(program, i, env, running),
    decreases program.len() - i,
{
    if i < program.len() {
        assert((program + rest)[i] == program[i]);
        match program[i] {
            Stmt::Expression(expression) => {
                let value = eval_expr(expression, env);
                if !(value is Return) && !(value is Error) {
                    lemma_error_stops_from(program, rest, i + 1, env, Some(value));
                }
            },
            Stmt::Let(name, expression) => {
                let value = eval_expr(expression, env);
                if !(value is Return) && !(value is Error) {
                    lemma_error_stops_from(program, rest, i + 1, env.insert(name, value), None);
                }
            },
            Stmt::Return(_) => {},
        }
    }
}

/// Once an error occurs, no later statement runs: a program that ends in an
/// error signal ends in the same error, with the same bindings, whatever
/// statements follow it.
pub proof fn lemma_error_stops_program(program: Seq<Stmt>, rest: Seq<Stmt>, env: Bindings)
    requires
        is_error(run(program, env).result),
    ensures
        run(program + rest, env) == run(program, env),
{
    lemma_error_stops_from(program, rest, 0, env, None);
}

/// Running the statements of a program from number `i` on binds no signal.
proof fn lemma_run_from_binds_no_signal(
    program: Seq<Stmt>,
    i: int,
    env: Bindings,
    running: Option<Value>,
)
    requires
        0 <= i <= program.len(),
        signal_free(env),
    ensures
        signal_free(run_from(program, i, env, running).env),
    decreases program.len() - i,
{
    if i < program.len() {
        match program[i] {
            Stmt::Expression(expression) => {
                let value = eval_expr(expression, env);
                if !value.is_signal() {
                    lemma_run_from_binds_no_signal(program, i + 1, env, Some(value));
                }
            },
            Stmt::Let(name, expression) => {
                let value = eval_expr(expression, env);
                if !value.is_signal() {
                    lemma_run_from_binds_no_signal(program, i + 1, env.insert(name, value), None);
                }
            },
            Stmt::Return(_) => {},
        }
    }
}

/// A signal is never kept: a program that starts with bindings free of
/// signals leaves bindings free of signals.
pub proof fn lemma_run_binds_no_signal(program: Seq<Stmt>, env: Bindings)
    requires
        signal_free(env),
    ensures
        signal_free(run(program, env).env),
{
    lemma_run_from_binds_no_signal(program, 0, env, None);
}

/// The statements `body` inside `depth` conditionals whose condition is
/// true, each conditional an expression statement that is followed, in its
/// block, by the statements `after`.
pub open spec fn nested(depth: nat, body: Seq<Stmt>, after: Seq<Stmt>) -> Seq<Stmt>
    decreases depth,
{
    if depth == 0 {
        body
    } else {
        seq![
            Stmt::Expression(
                Expr::If(
                    Box::new(Expr::Boolean(true)),
                    nested((depth - 1) as nat, body, after),
                    None,
                ),
            ),
        ] + after
    }
}

/// A return unwinds every block around it: where a block ends in a return
/// signal, so does that block inside any number of conditionals, whatever
/// statements follow the conditionals in their blocks, and the signal is
/// still the same.
pub proof fn lemma_return_unwinds_blocks(
    depth: nat,
    body: Seq<Stmt>,
    after: Seq<Stmt>,
    env: Bindings,
    value: Value,
)
    requires
        eval_block(body, env) == Some(Value::Return(Box::new(value))),
    ensures
        eval_block(nested(depth, body, after), env) == Some(Value::Return(Box::new(value))),
    decreases depth,
{
    if depth > 0 {
        let inner = nested((depth - 1) as nat, body, after);
        lemma_return_unwinds_blocks((depth - 1) as nat, body, after, env, value);
        let conditional = Expr::If(Box::new(Expr::Boolean(true)), inner, None);
        assert(nested(depth, body, after)[0] == Stmt::Expression(conditional));
        assert(eval_expr(Expr::Boolean(true), env) == Value::Boolean(true));
        assert(eval_expr(conditional, env) == Value::Return(Box::new(value)));
    }
}

/// A return ends the program from any depth: where a block ends in a return
/// signal, a program that holds that block inside one conditional or more
/// has as its result the value returned, unwrapped once, and binds nothing.
pub proof fn lemma_return_ends_program(
    depth: nat,
    body: Seq<Stmt>,
    after: Seq<Stmt>,
    env: Bindings,
    value: Value,
)
    requires
        depth > 0,
        eval_block(body, env) == Some(Value::Return(Box::new(value))),
    ensures
        run(nested(depth, body, after), env) == (Outcome { result: Some(value), env }),
{
    let inner = nested((depth - 1) as nat, body, after);
    lemma_return_unwinds_blocks((depth - 1) as nat, body, after, env, value);
    let conditional = Expr::If(Box::new(Expr::Boolean(true)), inner, None);
    assert(nested(depth, body, after)[0] == Stmt::Expression(conditional));
    assert(eval_expr(Expr::Boolean(true), env) == Value::Boolean(true));
    assert(eval_expr(conditional, env) == Value::Return(Box::new(value)));
}

} // verus!
