use rustic_calc::calculate::calculate;
use rustic_calc::error::ParseError;
use rustic_calc::expr::{BinOp, Expr};
use rustic_calc::tokenize::tokenize;
use rustic_calc::variables::{VariableEntry, Variables};

fn eval(e: &Expr, vars: &Variables<f64>) -> f64 {
    match e {
        Expr::Number(s) => s.parse().unwrap(),
        Expr::Variable(n) => vars.get(n).unwrap().value,
        Expr::Negate(a) => -eval(a, vars),
        Expr::Binary(op, a, b) => {
            let (x, y) = (eval(a, vars), eval(b, vars));
            match op {
                BinOp::Add => x + y,
                BinOp::Sub => x - y,
                BinOp::Mul => x * y,
                BinOp::Div => x / y,
                BinOp::Pow => x.powf(y),
            }
        }
    }
}

fn value(tokens: Vec<&str>, vars: &Variables<f64>) -> f64 {
    eval(&calculate(tokens, vars).unwrap(), vars)
}

fn close(a: f64, b: f64, eps: f64) -> bool {
    (a - b).abs() <= eps.max(f64::EPSILON * a.abs().max(b.abs()))
}

fn num(s: &str) -> Box<Expr> {
    Box::new(Expr::Number(s.to_string()))
}

#[test]
fn test_calculate_test_multiply() {
    let none = Variables::new();
    let tokens = vec!["2", "*", "2"];
    assert!(close(value(tokens, &none), 4.0, f64::EPSILON));

    let tokens = vec!["2.5", "*", "2"];
    assert!(close(value(tokens, &none), 5.0, f64::EPSILON));
}

#[test]
fn test_calculate_test_sum() {
    let none = Variables::new();
    let tokens = vec!["2", "+", "2"];
    assert!(close(value(tokens, &none), 4.0, f64::EPSILON));

    let tokens = vec!["1.5", "+", "1", "+", "0.5"];
    assert!(close(value(tokens, &none), 3.0, f64::EPSILON));
}

#[test]
fn test_calculate_test_subtract() {
    let none = Variables::new();
    let tokens = vec!["2", "-", "2"];
    assert!(close(value(tokens, &none), 0.0, f64::EPSILON));

    let tokens = vec!["2.5", "-", "1", "-", "0.5"];
    assert!(close(value(tokens, &none), 1.0, f64::EPSILON));
}

#[test]
fn test_calculate_test_divide() {
    let none = Variables::new();
    let tokens = vec!["2", "/", "2"];
    assert!(close(value(tokens, &none), 1.0, f64::EPSILON));

    let tokens = vec!["2.5", "/", "0.5", "/", "0.5"];
    assert!(close(value(tokens, &none), 10.0, f64::EPSILON));
}

#[test]
fn test_powers() {
    let none = Variables::new();
    let tokens = vec!["2", "^", "2"];
    assert!(close(value(tokens, &none), 4.0, f64::EPSILON));

    let tokens = vec!["4", "^", "0.5"];
    assert!(close(value(tokens, &none), 2.0, f64::EPSILON));
}

#[test]
fn test_calculate_test_order_of_operations() {
    let none = Variables::new();
    let tokens = vec!["2", "+", "3", "*", "2"];
    assert!(close(value(tokens, &none), 8.0, f64::EPSILON));

    let tokens = vec!["2", "*", "3", "^", "2"];
    assert!(close(value(tokens, &none), 18.0, f64::EPSILON));
}

#[test]
fn test_parenthesized_expression_with_power() {
    let none = Variables::new();
    let tokens = tokenize("(2+2)^2");
    assert!(close(value(tokens, &none), 16.0, f64::EPSILON));
}

#[test]
fn test_parenthesized_expression_with_variable() {
    let tokens = tokenize("(a+5)/2");
    let mut vars = Variables::new();
    vars.insert(
        "a".to_string(),
        VariableEntry { expression: "a=5".to_string(), value: 10.0 },
    );
    assert!(close(value(tokens, &vars), 7.5, f64::EPSILON));
}

#[test]
fn test_double_nested_parenthesized_expression_with_power() {
    let none = Variables::new();
    let tokens = tokenize("((2+2)/5)^2");
    assert!(close(value(tokens, &none), 0.64, f64::EPSILON));

    let tokens = tokenize("3((2+2)/5)^2");
    assert!(close(value(tokens, &none), 1.92, 1e-12));
}

#[test]
fn test_calculate_test_start_w_negative() {
    let none = Variables::new();
    let tokens = vec!["-", "2", "+", "2", "*", "2"];
    assert!(close(value(tokens, &none), 2.0, f64::EPSILON));
}

#[test]
fn test_error_handling() {
    let tokens = tokenize("asdf");
    let res = calculate(tokens, &Variables::<f64>::new());
    match res {
        Ok(_) => panic!("no way"),
        Err(err) => {
            assert_eq!(err.message(), "Unknown variable: a")
        }
    }
}

#[test]
fn power_groups_from_the_right() {
    let none = Variables::new();
    let e = calculate(tokenize("2^3^2"), &none).unwrap();
    assert_eq!(
        e,
        Expr::Binary(
            BinOp::Pow,
            num("2"),
            Box::new(Expr::Binary(BinOp::Pow, num("3"), num("2")))
        )
    );
    assert!(close(eval(&e, &none), 512.0, f64::EPSILON));
}

#[test]
fn precedence_builds_the_expected_tree() {
    let none = Variables::<f64>::new();
    let e = calculate(vec!["2", "+", "3", "*", "2"], &none).unwrap();
    assert_eq!(
        e,
        Expr::Binary(
            BinOp::Add,
            num("2"),
            Box::new(Expr::Binary(BinOp::Mul, num("3"), num("2")))
        )
    );
    let e = calculate(vec!["8", "-", "2", "-", "1"], &none).unwrap();
    assert_eq!(
        e,
        Expr::Binary(
            BinOp::Sub,
            Box::new(Expr::Binary(BinOp::Sub, num("8"), num("2"))),
            num("1")
        )
    );
}

#[test]
fn leading_minus_binds_looser_than_power() {
    let none = Variables::new();
    let e = calculate(tokenize("-2^2"), &none).unwrap();
    assert_eq!(
        e,
        Expr::Negate(Box::new(Expr::Binary(BinOp::Pow, num("2"), num("2"))))
    );
    assert!(close(eval(&e, &none), -4.0, f64::EPSILON));
    assert!(close(value(tokenize("2^-2"), &none), 0.25, f64::EPSILON));
    assert!(close(value(tokenize("-2+2*2"), &none), 2.0, f64::EPSILON));
    assert!(close(value(tokenize("+-+3"), &none), -3.0, f64::EPSILON));
}

#[test]
fn division_by_zero_is_no_error() {
    let none = Variables::new();
    assert_eq!(value(tokenize("1/0"), &none), f64::INFINITY);
}

#[test]
fn number_literals_follow_float_syntax() {
    let none = Variables::<f64>::new();
    assert_eq!(calculate(vec!["1e3"], &none).unwrap(), Expr::Number("1e3".to_string()));
    assert_eq!(calculate(vec!["-inf"], &none).unwrap(), Expr::Number("-inf".to_string()));
    assert_eq!(calculate(vec!["NaN"], &none).unwrap(), Expr::Number("NaN".to_string()));
    assert_eq!(calculate(vec!["5."], &none).unwrap(), Expr::Number("5.".to_string()));
    assert_eq!(
        calculate(vec!["."], &none).unwrap_err(),
        ParseError::UnknownVariable(".".to_string())
    );
    assert_eq!(
        calculate(vec!["1e"], &none).unwrap_err(),
        ParseError::UnknownVariable("1e".to_string())
    );
    assert_eq!(
        calculate(vec!["e5"], &none).unwrap_err(),
        ParseError::UnknownVariable("e5".to_string())
    );
}

#[test]
fn empty_expression_fails() {
    let none = Variables::<f64>::new();
    let err = calculate(vec![], &none).unwrap_err();
    assert_eq!(err, ParseError::EmptyExpression);
    assert_eq!(err.message(), "Expression could not be parsed");
    assert_eq!(calculate(vec!["2", "+"], &none).unwrap_err(), ParseError::EmptyExpression);
}

#[test]
fn unexpected_tokens_fail() {
    let none = Variables::<f64>::new();
    let err = calculate(vec![")"], &none).unwrap_err();
    assert_eq!(err, ParseError::UnexpectedToken(")".to_string()));
    assert_eq!(err.message(), "Unexpected token: )");
    assert_eq!(
        calculate(vec!["2", "3"], &none).unwrap_err(),
        ParseError::UnexpectedToken("3".to_string())
    );
}

#[test]
fn unmatched_parenthesis_fails() {
    let none = Variables::<f64>::new();
    let err = calculate(tokenize("(2+3"), &none).unwrap_err();
    assert_eq!(err, ParseError::UnmatchedParen);
    assert_eq!(err.message(), "Missing closing ')'");
}
