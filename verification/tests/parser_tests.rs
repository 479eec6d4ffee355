use maymun_lang::ast::{Expression, Program, Statement};
use maymun_lang::lexer::Lexer;
use maymun_lang::parser::Parser;

fn check_parser_errors(parser: &Parser) {
    let errors = parser.errors();
    if errors.len() > 0 {
        for e in errors.iter() {
            println!("parser error: {}", e);
        }
    }
    assert_eq!(0, errors.len());
}

fn parse(input: &str) -> (Program, Vec<String>) {
    let lexer = Lexer::new(input);
    let mut parser = Parser::new(lexer);
    let program = parser.parse_program();
    (program, parser.errors())
}

fn render(input: &str) -> String {
    let (program, errors) = parse(input);
    assert_eq!(Vec::<String>::new(), errors);
    program.to_string()
}

#[test]
fn mod_test_let_statements() {
    let input = "
let x = 5;
let y = 10;
let foobar = 934343;
";

    let lexer = Lexer::new(input);
    let mut parser = Parser::new(lexer);

    let program = parser.parse_program();

    check_parser_errors(&parser);
    assert_eq!(3, program.len());

    let tests = vec!["x", "y", "foobar"];

    for (i, expected_ident) in tests.iter().enumerate() {
        assert!(matches!(&program.get(i), Statement::Let(ident, _) if ident == *expected_ident));
    }
}

#[test]
fn mod_test_return_statement() {
    let input = "
return 5;
return 10;
return 909090;
";

    let lexer = Lexer::new(input);
    let mut parser = Parser::new(lexer);

    let program = parser.parse_program();

    check_parser_errors(&parser);
    assert_eq!(3, program.len());

    for stmt in program.all() {
        assert!(matches!(stmt, Statement::Return(_)))
    }
}

#[test]
fn test_identifier_expression() {
    let input = "foobar;";

    let lexer = Lexer::new(input);
    let mut parser = Parser::new(lexer);

    let program = parser.parse_program();

    check_parser_errors(&parser);
    assert_eq!(1, program.len());

    let stmt = program.get(0);

    assert_eq!("foobar", stmt.to_string());
}

#[test]
fn test_integer_expression() {
    let input = "5;";

    let lexer = Lexer::new(input);
    let mut parser = Parser::new(lexer);

    let program = parser.parse_program();

    check_parser_errors(&parser);
    assert_eq!(1, program.len());

    let stmt = program.get(0);

    assert_eq!("5", stmt.to_string());
}

#[test]
fn test_boolean_expression() {
    let input = "
true;
false;
let foobar = true; let barfoo = false;";

    let lexer = Lexer::new(input);
    let mut parser = Parser::new(lexer);

    let program = parser.parse_program();

    check_parser_errors(&parser);
    assert_eq!(4, program.len());
    assert_eq!("true", program.get(0).to_string());
    assert_eq!("false", program.get(1).to_string());
    assert_eq!("let foobar = true;", program.get(2).to_string());
    assert_eq!("let barfoo = false;", program.get(3).to_string());
}

#[test]
fn test_parse_prefix_expressions() {
    let tests = vec![("!5", "!", 5), ("-15", "-", 15)];

    for (input, operator, right) in tests {
        let lexer = Lexer::new(input);
        let mut parser = Parser::new(lexer);

        let program = parser.parse_program();

        check_parser_errors(&parser);
        assert_eq!(1, program.len());

        let stmt = program.get(0);

        match stmt {
            Statement::Expression(expr) => match expr {
                Expression::Prefix(op, right_expr) => {
                    assert_eq!(operator, op);
                    match **right_expr {
                        Expression::Int(int) => {
                            assert_eq!(right, int);
                        }
                        _ => panic!("right expression cannot match"),
                    }
                }
                _ => panic!("expression cannot match: {}", expr.to_string()),
            },
            _ => panic!("statement cannot match"),
        }
    }
}

#[test]
fn test_parse_infix_expressions() {
    let tests = vec![
        ("5 + 5;", 5, "+", 5),
        ("5 - 5;", 5, "-", 5),
        ("5 * 5;", 5, "*", 5),
        ("5 / 5;", 5, "/", 5),
        ("5 > 5;", 5, ">", 5),
        ("5 < 5;", 5, "<", 5),
        ("5 == 5;", 5, "==", 5),
        ("5 != 5;", 5, "!=", 5),
    ];

    for (input, left, operator, right) in tests {
        let lexer = Lexer::new(input);
        let mut parser = Parser::new(lexer);

        let program = parser.parse_program();

        check_parser_errors(&parser);
        assert_eq!(1, program.len());

        let stmt = program.get(0);

        match stmt {
            Statement::Expression(expr) => match expr {
                Expression::Infix(left_expr, op, right_expr) => {
                    assert_eq!(operator, op);
                    match **left_expr {
                        Expression::Int(int) => {
                            assert_eq!(left, int);
                        }
                        _ => panic!("left expression cannot match"),
                    }
                    match **right_expr {
                        Expression::Int(int) => {
                            assert_eq!(right, int);
                        }
                        _ => panic!("right expression cannot match"),
                    }
                }
                _ => panic!("expression cannot match: {}", expr.to_string()),
            },
            _ => panic!("statement cannot match"),
        }
    }
}

#[test]
fn test_operator_precedence_parsing() {
    let tests = vec![
        ("true", "true"),
        ("false", "false"),
        ("3 > 5 == false", "((3 > 5) == false)"),
        ("3 < 5 == true", "((3 < 5) == true)"),
        ("-a * b", "((-a) * b)"),
        ("!-a", "(!(-a))"),
        ("a + b + c", "((a + b) + c)"),
        ("a + b - c", "((a + b) - c)"),
        ("a * b * c", "((a * b) * c)"),
        ("a * b / c", "((a * b) / c)"),
        ("a + b / c", "(a + (b / c))"),
        ("a + b * c + d / e - f", "(((a + (b * c)) + (d / e)) - f)"),
        ("3 + 4; -5 * 5", "(3 + 4)((-5) * 5)"),
        ("5 > 4 == 3 < 4", "((5 > 4) == (3 < 4))"),
        ("5 < 4 != 3 > 4", "((5 < 4) != (3 > 4))"),
        (
            "3 + 4 * 5 == 3 * 1 + 4 * 5",
            "((3 + (4 * 5)) == ((3 * 1) + (4 * 5)))",
        ),
        (
            "3 + 4 * 5 == 3 * 1 + 4 * 5",
            "((3 + (4 * 5)) == ((3 * 1) + (4 * 5)))",
        ),
        ("1 + (2 + 3) + 4", "((1 + (2 + 3)) + 4)"),
        ("(5 + 5) * 2", "((5 + 5) * 2)"),
        ("2 / (5 + 5)", "(2 / (5 + 5))"),
        ("-(5 + 5)", "(-(5 + 5))"),
        ("!(true == true)", "(!(true == true))"),
    ];

    for (input, expected) in tests {
        let lexer = Lexer::new(input);
        let mut parser = Parser::new(lexer);

        let program = parser.parse_program();

        check_parser_errors(&parser);

        assert_eq!(program.to_string(), expected)
    }
}

#[test]
fn test_if_expression() {
    let input = "if (x < y) { x }";

    let lexer = Lexer::new(input);
    let mut parser = Parser::new(lexer);

    let program = parser.parse_program();

    check_parser_errors(&parser);

    assert_eq!(1, program.len());

    match program.get(0) {
        Statement::Expression(expr) => match expr {
            Expression::If(_, conseq, _) => match conseq.get(0).unwrap() {
                Statement::Expression(expr) => {
                    assert_eq!("x", expr.to_string())
                }
                _ => panic!("cannot match consequence expression"),
            },
            _ => panic!("cannot match expression"),
        },
        _ => panic!("cannot match statement"),
    }
}

#[test]
fn test_if_else_expression() {
    let input = "if (x < y) { x } else { y }";

    let lexer = Lexer::new(input);
    let mut parser = Parser::new(lexer);

    let program = parser.parse_program();

    check_parser_errors(&parser);

    assert_eq!(1, program.len());

    match program.get(0) {
        Statement::Expression(expr) => match expr {
            Expression::If(_, conseq, alter) => {
                match conseq.get(0).unwrap() {
                    Statement::Expression(expr) => {
                        assert_eq!("x", expr.to_string());
                    }
                    _ => panic!("cannot match consequence expression"),
                }

                if let Some(alter) = alter {
                    match alter.get(0).unwrap() {
                        Statement::Expression(expr) => {
                            assert_eq!("y", expr.to_string());
                        }
                        _ => panic!("cannot match alternative expression"),
                    }
                } else {
                    panic!("cannot match alternative expression");
                }
            }
            _ => panic!("cannot match expression"),
        },
        _ => panic!("cannot match statement"),
    }
}

#[test]
fn rendering_is_fully_bracketed() {
    assert_eq!(
        "(((a + (b * c)) + (d / e)) - f)",
        render("a + b * c + d / e - f")
    );
    assert_eq!(
        "((3 + (4 * 5)) == ((3 * 1) + (4 * 5)))",
        render("3 + 4 * 5 == 3 * 1 + 4 * 5")
    );
}

#[test]
fn rendering_a_rendering_changes_nothing() {
    let inputs = vec![
        "a + b * c + d / e - f",
        "3 + 4 * 5 == 3 * 1 + 4 * 5",
        "!-a",
        "-(5 + 5) * !x",
        "1 < 2 != 3 > 4",
        "a",
    ];
    for input in inputs {
        let once = render(input);
        assert_eq!(once, render(&once));
    }
}

#[test]
fn a_rendered_program_is_read_back() {
    let inputs = vec![
        "let a = 1 + 2; let b = a; a * b",
        "let x = !true; return -x == y",
        "let n = 0;",
        "return 7",
        "",
    ];
    for input in inputs {
        let (program, errors) = parse(input);
        assert_eq!(Vec::<String>::new(), errors);
        let rendered = program.to_string();
        let (again, errors) = parse(&rendered);
        assert_eq!(Vec::<String>::new(), errors);
        assert_eq!(program.len(), again.len());
        assert_eq!(rendered, again.to_string());
    }
    assert_eq!(
        "let a = (1 + 2);let b = a;(a * b)",
        render("let a = 1 + 2; let b = a; a * b")
    );
}

#[test]
fn two_expression_statements_run_together_when_rendered() {
    // The rendering puts nothing between statements: `1; 2` becomes `12`.
    let (program, _) = parse("1; 2");
    assert_eq!(2, program.len());
    let (again, _) = parse(&program.to_string());
    assert_eq!(1, again.len());
    assert_eq!("12", again.to_string());
}

#[test]
fn return_statements_keep_their_expression() {
    let (program, errors) = parse("return 2 * 5; return x");
    assert_eq!(Vec::<String>::new(), errors);
    assert_eq!(2, program.len());
    assert_eq!("return (2 * 5)", program.get(0).to_string());
    assert_eq!("return x", program.get(1).to_string());
}

#[test]
fn let_and_return_skip_to_the_semicolon() {
    let (program, errors) = parse("let a = 1 2 3; return 4 5; 6");
    assert_eq!(Vec::<String>::new(), errors);
    assert_eq!("let a = 1;return 46", program.to_string());
}

#[test]
fn a_statement_without_semicolon_ends_with_the_input() {
    let (program, errors) = parse("let a = 5");
    assert_eq!(Vec::<String>::new(), errors);
    assert_eq!("let a = 5;", program.to_string());

    let (program, errors) = parse("return a + 1");
    assert_eq!(Vec::<String>::new(), errors);
    assert_eq!("return (a + 1)", program.to_string());
}

#[test]
fn the_semicolon_of_an_expression_statement_is_optional() {
    assert_eq!("12", render("1; 2"));
    assert_eq!("12", render("1; 2;"));
}

#[test]
fn nested_blocks() {
    let input = "if (10 > 1) { if (10 > 1) { return 10; } return 1; } else { return 11; }";
    assert_eq!(
        "if (10 > 1)if (10 > 1)return 10return 1else return 11",
        render(input)
    );
    assert_eq!("if aelse ", render("if (a) { } else { }"));
    assert_eq!("if alet b = 1;b", render("if (a) { let b = 1; b }"));
}

#[test]
fn a_let_without_a_name_is_reported() {
    let (program, errors) = parse("let = 5;");
    assert_eq!(
        "expected next token to be Ident(\"\"), got Assign instead",
        errors[0]
    );
    // Reading goes on behind the `let`: `=` starts no expression, `5` does.
    assert_eq!(
        vec![
            "expected next token to be Ident(\"\"), got Assign instead".to_string(),
            "undefined expression for = found".to_string(),
        ],
        errors
    );
    assert_eq!("5", program.to_string());
}

#[test]
fn a_let_without_an_equals_sign_is_reported() {
    let (program, errors) = parse("let x 5;");
    assert_eq!(
        vec!["expected next token to be Assign, got Int(5) instead".to_string()],
        errors
    );
    // Reading goes on behind the name: `5` is a statement of its own.
    assert_eq!("5", program.to_string());
}

#[test]
fn a_missing_expression_is_reported() {
    let (program, errors) = parse("let x = ;");
    assert_eq!(
        vec!["undefined expression for Semicolon found".to_string()],
        errors
    );
    assert_eq!(0, program.len());

    let (program, errors) = parse("return;");
    assert_eq!(
        vec!["undefined expression for Semicolon found".to_string()],
        errors
    );
    assert_eq!(0, program.len());

    let (program, errors) = parse("1 + ;");
    assert_eq!(
        vec!["undefined expression for Semicolon found".to_string()],
        errors
    );
    assert_eq!(0, program.len());

    let (program, errors) = parse("-");
    assert_eq!(vec!["undefined expression for Eof found".to_string()], errors);
    assert_eq!(0, program.len());
}

#[test]
fn a_missing_bracket_is_reported() {
    let (program, errors) = parse("(1 + 2");
    assert_eq!(
        vec!["expected next token to be Rparen, got Eof instead".to_string()],
        errors
    );
    assert_eq!(0, program.len());

    let (_, errors) = parse("if x { 1 }");
    assert_eq!(
        "expected next token to be Lparen, got Ident(\"x\") instead",
        errors[0]
    );

    let (_, errors) = parse("if (x { 1 }");
    assert_eq!(
        "expected next token to be Rparen, got Lbrace instead",
        errors[0]
    );

    let (_, errors) = parse("if (x) 1");
    assert_eq!(
        "expected next token to be Lbrace, got Int(1) instead",
        errors[0]
    );

    let (_, errors) = parse("if (x) { 1 } else 2");
    assert_eq!(
        "expected next token to be Lbrace, got Int(2) instead",
        errors[0]
    );
}

#[test]
fn tokens_that_start_no_expression_are_reported() {
    let (program, errors) = parse("@");
    assert_eq!(
        vec!["undefined expression for Illegal found".to_string()],
        errors
    );
    assert_eq!(0, program.len());

    let (_, errors) = parse("fn");
    assert_eq!(
        vec!["undefined expression for Function found".to_string()],
        errors
    );

    let (_, errors) = parse("99999999999999999999");
    assert_eq!(
        vec!["undefined expression for Illegal found".to_string()],
        errors
    );
}

#[test]
fn one_pass_reports_every_error() {
    let (program, errors) = parse("let x 5; let y = 1; let = 2;");
    assert_eq!(
        vec![
            "expected next token to be Assign, got Int(5) instead".to_string(),
            "expected next token to be Ident(\"\"), got Assign instead".to_string(),
            "undefined expression for = found".to_string(),
        ],
        errors
    );
    assert_eq!("5let y = 1;2", program.to_string());
}

#[test]
fn an_unclosed_block_ends_with_the_input() {
    let (program, errors) = parse("if (a) { 1; 2");
    assert_eq!(Vec::<String>::new(), errors);
    assert_eq!("if a12", program.to_string());
}

#[test]
fn an_empty_input_is_an_empty_program() {
    let (program, errors) = parse("");
    assert_eq!(Vec::<String>::new(), errors);
    assert_eq!(0, program.len());
    assert_eq!("", program.to_string());
}
