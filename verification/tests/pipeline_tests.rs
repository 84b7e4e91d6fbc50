use tinylang::evaluator::EvalError;
use tinylang::evaluator::Evaluator;
use tinylang::lexer::tokenize;
use tinylang::parser::Parser;

fn run(src: &str) -> (Result<(), EvalError>, Vec<i64>) {
    let tokens = tokenize(src).unwrap();
    let mut parser = Parser::new(tokens);
    let stmts = parser.parse().unwrap();
    let mut evaluator = Evaluator::new();
    let result = evaluator.eval(stmts);
    (result, evaluator.output().clone())
}

#[test]
fn let_then_print() {
    let (result, output) = run("let x = 1 + 2; print(x);");
    assert!(result.is_ok());
    assert_eq!(output, vec![3]);
}

#[test]
fn left_to_right_no_precedence() {
    let (result, output) = run("print(2 + 3 * 4);");
    assert!(result.is_ok());
    assert_eq!(output, vec![20]);
}

#[test]
fn undefined_variable_reported() {
    let (result, output) = run("print(y);");
    assert_eq!(result, Err(EvalError::UndefinedVariable(String::from("y"))));
    assert_eq!(output, Vec::<i64>::new());
}

#[test]
fn redefinition_overwrites() {
    let (result, output) = run("let x = 1; let x = 2; print(x);");
    assert!(result.is_ok());
    assert_eq!(output, vec![2]);
}

#[test]
fn division_by_zero_is_an_error() {
    let (result, output) = run("print(1 / 0);");
    assert_eq!(result, Err(EvalError::DivisionByZero));
    assert_eq!(output, Vec::<i64>::new());
}

#[test]
fn addition_overflow_is_an_error() {
    let (result, _) = run("print(9223372036854775807 + 1);");
    assert_eq!(result, Err(EvalError::ArithmeticOverflow));
}

#[test]
fn division_overflow_is_an_error() {
    let (result, _) = run("let m = 0 - 9223372036854775807 - 1; let n = 0 - 1; print(m / n);");
    assert_eq!(result, Err(EvalError::ArithmeticOverflow));
}

#[test]
fn subtraction_can_go_negative() {
    let (result, output) = run("print(1 - 2);");
    assert!(result.is_ok());
    assert_eq!(output, vec![-1]);
}

#[test]
fn division_truncates_toward_zero() {
    let (result, output) = run("let a = 0 - 7; print(a / 2); print(7 / 2);");
    assert!(result.is_ok());
    assert_eq!(output, vec![-3, 3]);
}

#[test]
fn expression_statement_is_evaluated_for_effect() {
    let (result, output) = run("5;");
    assert!(result.is_ok());
    assert_eq!(output, Vec::<i64>::new());

    let (result, _) = run("y;");
    assert_eq!(result, Err(EvalError::UndefinedVariable(String::from("y"))));
}

#[test]
fn output_before_failure_is_kept() {
    let (result, output) = run("print(1); print(y);");
    assert_eq!(result, Err(EvalError::UndefinedVariable(String::from("y"))));
    assert_eq!(output, vec![1]);
}

#[test]
fn bindings_before_failure_remain() {
    let tokens = tokenize("let a = 5; let b = a / 0;").unwrap();
    let mut parser = Parser::new(tokens);
    let stmts = parser.parse().unwrap();
    let mut evaluator = Evaluator::new();
    assert_eq!(evaluator.eval(stmts), Err(EvalError::DivisionByZero));

    let tokens = tokenize("print(a);").unwrap();
    let mut parser = Parser::new(tokens);
    let stmts = parser.parse().unwrap();
    assert!(evaluator.eval(stmts).is_ok());
    assert_eq!(evaluator.output(), &vec![5]);
}

#[test]
fn successive_prints_without_semicolons() {
    let (result, output) = run("print(1) print(2)");
    assert!(result.is_ok());
    assert_eq!(output, vec![1, 2]);
}

#[test]
fn chained_arithmetic() {
    let (result, output) = run("let a = 10; let b = a - 2 - 3; print(b * b);");
    assert!(result.is_ok());
    assert_eq!(output, vec![25]);
}
