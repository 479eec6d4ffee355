use maymun_lang::eval::{eval_block_statements, eval_expression, eval_program};
use maymun_lang::ast::{Expression, Program, Statement};
use maymun_lang::lexer::Lexer;
use maymun_lang::object::{Environment, Object};
use maymun_lang::parser::Parser;

fn test_eval(input: &str) -> Object {
    let lexer = Lexer::new(input);
    let mut parser = Parser::new(lexer);
    let mut env = Environment::new();

    eval_program(parser.parse_program(), &mut env).unwrap()
}

fn run(input: &str, env: &mut Environment) -> Option<Object> {
    let mut parser = Parser::new(Lexer::new(input));
    let program = parser.parse_program();
    assert_eq!(Vec::<String>::new(), parser.errors());
    eval_program(program, env)
}

fn error_of(input: &str) -> String {
    match test_eval(input) {
        Object::Error(message) => message,
        other => panic!("unexpected eval object {}", other.to_string()),
    }
}

#[test]
fn test_eval_integer_expression() {
    let tests = vec![
        ("5", 5),
        ("10", 10),
        ("-5", -5),
        ("-10", -10),
        ("5 + 5 + 5 + 5 - 10", 10),
        ("2 * 2 * 2 * 2 * 2", 32),
        ("-50 + 100 + -50", 0),
        ("5 * 2 + 10", 20),
        ("5 + 2 * 10", 25),
        ("20 + 2 * -10", 0),
        ("50 / 2 * 2 + 10", 60),
        ("2 * (5 + 10)", 30),
        ("3 * 3 * 3 + 10", 37),
        ("3 * (3 * 3) + 10", 37),
        ("(5 + 10 * 2 + 15 / 3) * 2 + -10", 50),
    ];

    for (input, expect) in tests {
        let eval = test_eval(input);
        assert!(matches!(eval, Object::Integer(i) if expect == i));
    }
}

#[test]
fn test_eval_boolean_expression() {
    let tests = vec![
        ("true", true),
        ("false", false),
        ("1 < 2", true),
        ("1 > 2", false),
        ("1 < 1", false),
        ("1 > 1", false),
        ("1 == 1", true),
        ("1 != 1", false),
        ("1 == 2", false),
        ("1 != 2", true),
        ("true == true", true),
        ("false == false", true),
        ("true == false", false),
        ("true != false", true),
        ("false != true", true),
        ("(1 < 2) == true", true),
        ("(1 < 2) == false", false),
        ("(1 > 2) == true", false),
        ("(1 > 2) == false", true),
        ("!true", false),
        ("!false", true),
        ("!5", false),
        ("!!true", true),
        ("!!false", false),
        ("!!5", true),
    ];

    for (input, expect) in tests {
        let eval = test_eval(input);
        assert!(matches!(eval, Object::Boolean(b) if expect == b));
    }
}

#[test]
fn test_if_else_expressions() {
    let tests = vec![
        ("if (true) { 10 }", Some(10)),
        ("if (false) { 10 }", None),
        ("if (1) { 10 }", Some(10)),
        ("if (1 < 2) { 10 }", Some(10)),
        ("if (1 > 2) { 10 }", None),
        ("if (1 > 2) { 10 } else { 20 }", Some(20)),
        ("if (1 < 2) { 10 } else { 20 }", Some(10)),
    ];

    for (input, expect) in tests {
        let eval = test_eval(input);
        match eval {
            Object::Integer(i) => assert_eq!(expect.unwrap(), i),
            Object::Null => assert_eq!(expect, None),
            _ => panic!("unexpected match eval_expression"),
        }
    }
}

#[test]
fn test_return_statement() {
    let tests = vec![
        ("return 10;", 10),
        ("return 10; 9;", 10),
        ("return 2 * 5; 9;", 10),
        ("9; return 2 * 5; 9;", 10),
        (
            "if (10 > 1) { if (10 > 1) { return 10; } return 1; } else { return 11; }",
            10,
        ),
    ];

    for (input, expect) in tests {
        let eval = test_eval(input);
        assert!(matches!(eval, Object::Integer(i) if expect == i));
    }
}

#[test]
fn test_error_handling() {
    let tests = vec![
        (
            "5 + true;",
            "mismatch expression operation: Integer(5) + Boolean(true)",
        ),
        (
            "5 + true; 5;",
            "mismatch expression operation: Integer(5) + Boolean(true)",
        ),
        ("-true", "unknown operator: -Boolean(true)"),
        (
            "true + false;",
            "mismatch expression operation: Boolean(true) + Boolean(false)",
        ),
        (
            "5; true + false; 5",
            "mismatch expression operation: Boolean(true) + Boolean(false)",
        ),
        (
            "if (10 > 1) { true + false; }",
            "mismatch expression operation: Boolean(true) + Boolean(false)",
        ),
        (
            "if (10 > 1) { if (10 > 1) { return true + false; } return 1; }",
            "mismatch expression operation: Boolean(true) + Boolean(false)",
        ),
        ("foobar", "identifier not found: foobar"),
    ];

    for (input, expect) in tests {
        let eval = test_eval(input);
        match eval {
            Object::Error(msg) => {
                assert_eq!(expect, msg)
            }
            _ => panic!("unexpected eval object {}", eval.to_string()),
        }
    }
}

#[test]
fn test_let_statements() {
    let tests = vec![
        ("let a = 5; a;", 5),
        ("let a = 5 * 5; a;", 25),
        ("let a = 5; let b = a; b;", 5),
        ("let a = 5; let b = a; let c = a + b + 5; c;", 15),
    ];

    for (input, expected) in tests {
        let eval = test_eval(input);
        assert!(matches!(eval, Object::Integer(i) if expected == i));
    }
}

#[test]
fn arithmetic() {
    assert_eq!(Object::Integer(10), test_eval("5 + 5 + 5 + 5 - 10"));
    assert_eq!(Object::Integer(30), test_eval("2 * (5 + 10)"));
    assert_eq!(Object::Integer(-3), test_eval("-7 / 2"));
    assert_eq!(Object::Integer(-3), test_eval("7 / -2"));
    assert_eq!(Object::Integer(3), test_eval("-7 / -2"));
    assert_eq!(Object::Integer(3), test_eval("7 / 2"));
    assert_eq!(Object::Integer(0), test_eval("0 / 5"));
}

#[test]
fn arithmetic_wraps_around() {
    assert_eq!(
        Object::Integer(i64::MIN),
        test_eval("9223372036854775807 + 1")
    );
    assert_eq!(
        Object::Integer(i64::MAX),
        test_eval("-9223372036854775807 - 2")
    );
    assert_eq!(
        Object::Integer(-2),
        test_eval("9223372036854775807 * 2")
    );
    assert_eq!(
        Object::Integer(i64::MIN),
        test_eval("-(-9223372036854775807 - 1)")
    );
    assert_eq!(
        Object::Integer(i64::MIN),
        test_eval("(-9223372036854775807 - 1) / -1")
    );
}

#[test]
fn division_by_zero_is_an_error_signal() {
    assert_eq!(
        "division by zero: Integer(1) / Integer(0)",
        error_of("1 / 0")
    );
    assert_eq!(
        "division by zero: Integer(0) / Integer(0)",
        error_of("let a = 0; a / a; 5")
    );
}

#[test]
fn truthiness() {
    assert_eq!(Object::Integer(10), test_eval("if (1) { 10 }"));
    assert_eq!(Object::Integer(10), test_eval("if (0) { 10 }"));
    assert_eq!(Object::Null, test_eval("if (false) { 10 }"));
    assert_eq!(Object::Integer(20), test_eval("if (1 > 2) { 10 } else { 20 }"));
    // A condition that is null chooses the alternative.
    assert_eq!(
        Object::Integer(2),
        test_eval("if (if (false) { 0 }) { 1 } else { 2 }")
    );
    assert_eq!(Object::Null, test_eval("if (if (false) { 0 }) { 1 }"));
}

#[test]
fn a_block_without_a_value_is_null() {
    assert_eq!(Object::Null, test_eval("if (true) { }"));
    assert_eq!(Object::Null, test_eval("if (false) { 1 } else { }"));
    assert_eq!(Object::Null, test_eval("if (true) { let a = 1; }"));
}

#[test]
fn a_block_binds_nothing() {
    assert_eq!(
        "identifier not found: a",
        error_of("if (true) { let a = 1; a }")
    );
    let mut env = Environment::new();
    assert_eq!(
        Some(Object::Integer(2)),
        run("let a = 2; if (true) { let a = 1; 5 }; a", &mut env)
    );
}

#[test]
fn return_unwinds_nested_blocks() {
    assert_eq!(
        Object::Integer(10),
        test_eval("if (10 > 1) { if (10 > 1) { return 10; } return 1; } else { return 11; }")
    );
    assert_eq!(
        Object::Integer(11),
        test_eval("if (10 < 1) { return 10; } else { return 11; }")
    );
}

#[test]
fn a_block_hands_a_return_signal_to_what_encloses_it() {
    let env = Environment::new();
    let block = vec![
        Statement::Expression(Expression::Int(1)),
        Statement::Return(Expression::Int(2)),
        Statement::Expression(Expression::Int(3)),
    ];
    assert_eq!(
        Some(Object::Return(Box::new(Object::Integer(2)))),
        eval_block_statements(&block, &env)
    );

    let failing = vec![Statement::Return(Expression::Literal("x".to_string()))];
    assert_eq!(
        Some(Object::Error("identifier not found: x".to_string())),
        eval_block_statements(&failing, &env)
    );

    assert_eq!(None, eval_block_statements(&vec![], &env));
}

#[test]
fn errors_of_each_kind() {
    assert_eq!("identifier not found: foobar", error_of("foobar"));
    assert_eq!(
        "mismatch expression operation: Integer(5) + Boolean(true)",
        error_of("5 + true;")
    );
    assert_eq!(
        "mismatch expression operation: Boolean(true) < Boolean(false)",
        error_of("true < false")
    );
    assert_eq!(
        "mismatch expression operation: Null - Integer(1)",
        error_of("if (false) { 1 } - 1")
    );
    assert_eq!("unknown operator: -Boolean(true)", error_of("-true"));
    assert_eq!("unknown operator: -Null", error_of("-if (false) { 1 }"));
    assert_eq!("unknown prefix type: Null", error_of("!if (false) { 1 }"));
}

#[test]
fn operators_that_the_parser_never_writes() {
    let env = Environment::new();
    let prefix = Expression::Prefix("~".to_string(), Box::new(Expression::Int(1)));
    assert_eq!(
        Object::Error("unknown operator: ~Integer(1)".to_string()),
        eval_expression(&prefix, &env)
    );
    let infix = Expression::Infix(
        Box::new(Expression::Int(1)),
        "%".to_string(),
        Box::new(Expression::Int(2)),
    );
    assert_eq!(
        Object::Error("unknown operator: Integer(1) % Integer(2)".to_string()),
        eval_expression(&infix, &env)
    );
}

#[test]
fn values_of_different_kinds_are_unequal() {
    assert_eq!(Object::Boolean(false), test_eval("1 == true"));
    assert_eq!(Object::Boolean(true), test_eval("1 != true"));
    assert_eq!(Object::Boolean(false), test_eval("if (false) { 1 } == false"));
    assert_eq!(
        Object::Boolean(true),
        test_eval("if (false) { 1 } == if (false) { 2 }")
    );
}

#[test]
fn an_error_stops_the_program() {
    assert_eq!(error_of("true + false;"), error_of("5; true + false; 5"));

    let mut env = Environment::new();
    let result = run("let a = 1; let b = a + true; let c = 3;", &mut env);
    assert_eq!(
        Some(Object::Error(
            "mismatch expression operation: Integer(1) + Boolean(true)".to_string()
        )),
        result
    );
    assert_eq!(Some(Object::Integer(1)), env.get("a").cloned());
    assert!(env.get("b").is_none());
    assert!(env.get("c").is_none());
}

#[test]
fn an_error_in_an_operand_comes_first() {
    assert_eq!("identifier not found: a", error_of("a + b"));
    assert_eq!("identifier not found: b", error_of("1 + b"));
    assert_eq!("identifier not found: a", error_of("-a"));
    assert_eq!("identifier not found: a", error_of("if (a) { 1 }"));
    assert_eq!("identifier not found: a", error_of("(a + true) * b"));
}

#[test]
fn bindings_last_for_the_session() {
    let mut env = Environment::new();
    assert_eq!(None, run("let a = 5;", &mut env));
    assert_eq!(None, run("let b = a * 2;", &mut env));
    assert_eq!(Some(Object::Integer(15)), run("a + b", &mut env));
    assert_eq!(None, run("let a = true;", &mut env));
    assert_eq!(Some(Object::Boolean(true)), run("a", &mut env));
    assert_eq!(
        Some(Object::Integer(15)),
        run("let a = 5; let b = a; let c = a + b + 5; c;", &mut env)
    );
}

#[test]
fn a_program_without_a_value() {
    let mut env = Environment::new();
    assert_eq!(None, run("", &mut env));
    assert_eq!(None, run("1; let a = 2;", &mut env));
    assert_eq!(Some(Object::Integer(2)), run("let a = 1; 2", &mut env));
}

#[test]
fn a_return_at_the_top_hands_its_value_on_as_it_is() {
    assert_eq!(
        Object::Error("identifier not found: x".to_string()),
        test_eval("return x; 1")
    );
    assert_eq!(Object::Null, test_eval("return if (false) { 1 };"));
}

#[test]
fn environment_of_its_own() {
    let mut env = Environment::new();
    assert!(env.get("a").is_none());
    env.insert("a".to_string(), Object::Integer(1));
    env.insert("b".to_string(), Object::Null);
    env.insert("a".to_string(), Object::Boolean(true));
    assert_eq!(Some(&Object::Boolean(true)), env.get("a"));
    assert_eq!(Some(&Object::Null), env.get("b"));
    assert!(env.get("c").is_none());
}

#[test]
fn values_as_text() {
    assert_eq!("Integer(5)", Object::Integer(5).to_string());
    assert_eq!("Integer(-5)", Object::Integer(-5).to_string());
    assert_eq!("Boolean(true)", Object::Boolean(true).to_string());
    assert_eq!("Boolean(false)", Object::Boolean(false).to_string());
    assert_eq!("Null", Object::Null.to_string());
    assert_eq!(
        "Return(Integer(1))",
        Object::Return(Box::new(Object::Integer(1))).to_string()
    );
    assert_eq!("Error(oops)", Object::Error("oops".to_string()).to_string());
}

#[test]
fn values_as_shown_to_a_user() {
    assert_eq!("5", Object::Integer(5).display());
    assert_eq!("-9223372036854775808", Object::Integer(i64::MIN).display());
    assert_eq!("true", Object::Boolean(true).display());
    assert_eq!("false", Object::Boolean(false).display());
    assert_eq!("null", Object::Null.display());
    assert_eq!("7", Object::Return(Box::new(Object::Integer(7))).display());
    assert_eq!("oops", Object::Error("oops".to_string()).display());
}

#[test]
fn values_compare_by_structure() {
    let one = Object::Return(Box::new(Object::Integer(1)));
    assert!(one.same_as(&one.clone()));
    assert!(!one.same_as(&Object::Integer(1)));
    assert!(!one.same_as(&Object::Return(Box::new(Object::Integer(2)))));
    assert!(Object::Null.same_as(&Object::Null));
    assert!(Object::Error("a".to_string()).same_as(&Object::Error("a".to_string())));
    assert!(!Object::Error("a".to_string()).same_as(&Object::Error("b".to_string())));
    assert!(!Object::Boolean(true).same_as(&Object::Integer(1)));
}

#[test]
fn a_signal_is_never_bound() {
    let mut env = Environment::new();
    assert_eq!(
        Some(Object::Integer(5)),
        run("let a = if (true) { return 5; }; 1", &mut env)
    );
    assert!(env.get("a").is_none());

    assert_eq!(
        Some(Object::Error("identifier not found: y".to_string())),
        run("let b = y; 1", &mut env)
    );
    assert!(env.get("b").is_none());

    assert_eq!(None, run("let c = if (false) { 1 };", &mut env));
    assert_eq!(Some(&Object::Null), env.get("c"));
}

fn if_true(block: Vec<Statement>) -> Statement {
    Statement::Expression(Expression::If(
        Box::new(Expression::Boolean(true)),
        block,
        None,
    ))
}

#[test]
fn a_block_hands_on_the_return_signal_of_a_nested_block() {
    let env = Environment::new();
    let block = vec![
        if_true(vec![Statement::Return(Expression::Int(10))]),
        Statement::Return(Expression::Int(1)),
    ];
    assert_eq!(
        Some(Object::Return(Box::new(Object::Integer(10)))),
        eval_block_statements(&block, &env)
    );

    let failing = vec![
        if_true(vec![Statement::Expression(Expression::Literal("x".to_string()))]),
        Statement::Return(Expression::Int(1)),
    ];
    assert_eq!(
        Some(Object::Error("identifier not found: x".to_string())),
        eval_block_statements(&failing, &env)
    );
}

#[test]
fn a_return_three_blocks_deep_ends_the_program() {
    let mut program = Program::new();
    program.push(if_true(vec![
        if_true(vec![
            if_true(vec![Statement::Return(Expression::Int(10))]),
            Statement::Return(Expression::Int(1)),
        ]),
        Statement::Return(Expression::Int(2)),
    ]));
    let mut env = Environment::new();
    assert_eq!(Some(Object::Integer(10)), eval_program(program, &mut env));

    assert_eq!(
        Object::Integer(10),
        test_eval(
            "if (true) { if (true) { if (true) { return 10; } return 1; } return 2; }"
        )
    );
    assert_eq!(
        Object::Integer(10),
        test_eval("if (true) { if (true) { if (true) { if (true) { return 10; } 1 } 2 } 3 }")
    );
}

#[test]
fn a_return_inside_blocks_ends_the_statements_behind_them() {
    let mut program = Program::new();
    program.push(if_true(vec![if_true(vec![Statement::Return(
        Expression::Int(10),
    )])]));
    program.push(Statement::Expression(Expression::Int(99)));
    let mut env = Environment::new();
    assert_eq!(Some(Object::Integer(10)), eval_program(program, &mut env));

    assert_eq!(
        Object::Integer(10),
        test_eval("if (true) { if (true) { return 10; } } 99")
    );
    assert_eq!(
        Object::Integer(10),
        test_eval("if (true) { if (true) { return 10; } }; let a = 1; a")
    );
}
