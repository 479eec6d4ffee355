use maymun_lang::ast::{Expression, Identifier, Program, Statement};

#[test]
fn test_string() {
    let mut program = Program::new();
    program.push(Statement::Let(
        Identifier::from("myVar"),
        Expression::Literal("anotherVar".to_string()),
    ));

    assert_eq!(program.to_string(), "let myVar = anotherVar;");
}

#[test]
fn program_grows_by_push_and_keeps_order() {
    let mut program = Program::new();
    assert_eq!(0, program.len());
    assert_eq!("", program.to_string());

    program.push(Statement::Expression(Expression::Int(1)));
    program.push(Statement::Return(Expression::Boolean(false)));
    assert_eq!(2, program.len());
    assert_eq!(2, program.all().len());
    assert!(matches!(program.get(0), Statement::Expression(Expression::Int(1))));
    assert!(matches!(program.get(1), Statement::Return(Expression::Boolean(false))));
    assert_eq!("1return false", program.to_string());
}

#[test]
fn renders_integers_in_decimal() {
    assert_eq!("0", Expression::Int(0).to_string());
    assert_eq!("7", Expression::Int(7).to_string());
    assert_eq!("10", Expression::Int(10).to_string());
    assert_eq!("-42", Expression::Int(-42).to_string());
    assert_eq!("9223372036854775807", Expression::Int(i64::MAX).to_string());
    assert_eq!("-9223372036854775808", Expression::Int(i64::MIN).to_string());
}

#[test]
fn renders_operations_in_brackets() {
    let prefix = Expression::Prefix("!".to_string(), Box::new(Expression::Boolean(true)));
    assert_eq!("(!true)", prefix.to_string());

    let infix = Expression::Infix(
        Box::new(Expression::Literal("a".to_string())),
        "+".to_string(),
        Box::new(Expression::Int(2)),
    );
    assert_eq!("(a + 2)", infix.to_string());
}

#[test]
fn renders_conditionals_without_braces() {
    let without_else = Expression::If(
        Box::new(Expression::Literal("x".to_string())),
        vec![
            Statement::Expression(Expression::Int(1)),
            Statement::Expression(Expression::Int(2)),
        ],
        None,
    );
    assert_eq!("if x12", without_else.to_string());

    let with_else = Expression::If(
        Box::new(Expression::Boolean(true)),
        vec![Statement::Return(Expression::Int(1))],
        Some(vec![Statement::Let(
            "y".to_string(),
            Expression::Int(2),
        )]),
    );
    assert_eq!("if truereturn 1else let y = 2;", with_else.to_string());

    let empty = Expression::If(Box::new(Expression::Boolean(true)), vec![], Some(vec![]));
    assert_eq!("if trueelse ", empty.to_string());
}

#[test]
fn renders_each_kind_of_statement() {
    let value = || Expression::Literal("v".to_string());
    assert_eq!("let n = v;", Statement::Let("n".to_string(), value()).to_string());
    assert_eq!("return v", Statement::Return(value()).to_string());
    assert_eq!("v", Statement::Expression(value()).to_string());
}
