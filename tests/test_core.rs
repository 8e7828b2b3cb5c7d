use rustic_calc::expr::{BinOp, Expr};
use rustic_calc::{calculate, tokenize};

fn eval(e: &Expr) -> f64 {
    match e {
        Expr::Number(s) => s.parse().unwrap(),
        Expr::Variable(_) => f64::NAN,
        Expr::Negate(a) => -eval(a),
        Expr::Binary(op, a, b) => {
            let (x, y) = (eval(a), eval(b));
            match op {
                BinOp::Add => x + y,
                BinOp::Sub => x - y,
                BinOp::Mul => x * y,
                BinOp::Div => x / y,
                BinOp::Pow => x.powf(y),
            }
        }
    }
}

fn value(tokens: Vec<&str>) -> f64 {
    eval(&calculate(tokens).unwrap())
}

fn close(a: f64, b: f64) -> bool {
    (a - b).abs() <= f64::EPSILON * a.abs().max(b.abs()).max(1.0)
}

#[test]
fn test_core_test_tokenize() {
    let res = tokenize("2x2");
    assert_eq!(res, vec!["2", "*", "2"]);

    let res = tokenize("2.5x2");
    println!("{res:?}");
    assert_eq!(res, vec!["2.5", "*", "2"]);
}

#[test]
fn test_core_test_tokenize_with_negative() {
    let res = tokenize("-2x2");
    assert_eq!(res, vec!["-", "2", "*", "2"]);
}

#[test]
fn test_core_test_multiply() {
    let tokens = vec!["2", "*", "2"];
    assert!(close(value(tokens), 4.0));

    let tokens = vec!["2.5", "*", "2"];
    assert!(close(value(tokens), 5.0));
}

#[test]
fn test_core_test_sum() {
    let tokens = vec!["2", "+", "2"];
    assert!(close(value(tokens), 4.0));

    let tokens = vec!["1.5", "+", "1", "+", "0.5"];
    assert!(close(value(tokens), 3.0));
}

#[test]
fn test_core_test_subtract() {
    let tokens = vec!["2", "-", "2"];
    assert!(close(value(tokens), 0.0));

    let tokens = vec!["2.5", "-", "1", "-", "0.5"];
    assert!(close(value(tokens), 1.0));
}

#[test]
fn test_core_test_divide() {
    let tokens = vec!["2", "/", "2"];
    assert!(close(value(tokens), 1.0));

    let tokens = vec!["2.5", "/", "0.5", "/", "0.5"];
    assert!(close(value(tokens), 10.0));
}

#[test]
fn test_core_test_order_of_operations() {
    let tokens = vec!["2", "+", "3", "*", "2"];
    assert!(close(value(tokens), 8.0));
}

#[test]
fn test_core_test_start_w_negative() {
    let tokens = vec!["-", "2", "+", "2", "*", "2"];
    assert!(close(value(tokens), 2.0));
}

#[test]
fn plain_notation_drops_other_characters() {
    assert_eq!(tokenize("1 + (2)"), vec!["1", "+", "2"]);
    assert_eq!(tokenize("3 x 4 ^ 2"), vec!["3", "*", "4", "^", "2"]);
}

#[test]
fn plain_notation_errors() {
    assert_eq!(calculate(vec![]).unwrap_err(), "Expression could not be parsed");
    assert_eq!(calculate(vec!["+"]).unwrap_err(), "Missing operand");
    assert_eq!(calculate(vec!["1", "a", "2"]).unwrap_err(), "Missing operator");
}

#[test]
fn plain_notation_powers_group_from_the_left() {
    assert!(close(value(vec!["2", "^", "3", "^", "2"]), 64.0));
    assert!(close(value(vec!["-", "3", "^", "2"]), -9.0));
}
