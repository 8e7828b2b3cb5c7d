use rustic_calc::tokenize::tokenize;

#[test]
fn test_tokenize_test_tokenize() {
    let res = tokenize("2*2");
    assert_eq!(res, vec!["2", "*", "2"]);

    let res = tokenize("2.5*2");
    assert_eq!(res, vec!["2.5", "*", "2"]);
}

#[test]
fn test_tokenize_test_tokenize_with_negative() {
    let res = tokenize("-2*2");
    assert_eq!(res, vec!["-", "2", "*", "2"]);
}

#[test]
fn save_variable_assignment_tokenized() {
    let res = tokenize("x=2");
    assert_eq!(res, vec!["x", "=", "2"]);

    let res = tokenize("x=abc");
    assert_eq!(res, vec!["x", "=", "a", "*", "b", "*", "c"]);
}

#[test]
fn save_variables_tokenized() {
    let res = tokenize("abc");
    assert_eq!(res, vec!["a", "*", "b", "*", "c"]);

    let res = tokenize("x=ab");
    assert_eq!(res, vec!["x", "=", "a", "*", "b"]);
}

#[test]
fn coefficients_tokenized() {
    let res = tokenize("7x");
    assert_eq!(res, vec!["7", "*", "x"]);
}

#[test]
fn implicit_multiplication_around_parentheses() {
    assert_eq!(tokenize("3(2+2)"), vec!["3", "*", "(", "2", "+", "2", ")"]);
    assert_eq!(tokenize("(1)(2)"), vec!["(", "1", ")", "*", "(", "2", ")"]);
    assert_eq!(tokenize("x(1)"), vec!["x", "*", "(", "1", ")"]);
    assert_eq!(tokenize("+(1)"), vec!["+", "(", "1", ")"]);
    assert_eq!(tokenize("(1)2"), vec!["(", "1", ")", "*", "2"]);
    assert_eq!(tokenize("(1)x"), vec!["(", "1", ")", "*", "x"]);
    assert_eq!(tokenize("x2"), vec!["x", "*", "2"]);
}

#[test]
fn whitespace_and_unknown_characters_are_dropped() {
    assert_eq!(tokenize(" 1 +\t2 "), vec!["1", "+", "2"]);
    assert_eq!(tokenize("1 # 2"), vec!["1", "2"]);
    assert_eq!(tokenize("é1"), vec!["1"]);
    assert!(tokenize("").is_empty());
}

#[test]
fn number_runs_take_one_dot() {
    assert_eq!(tokenize("1.2.3"), vec!["1.2", ".3"]);
    assert_eq!(tokenize(".5"), vec![".5"]);
    assert_eq!(tokenize("12.5x"), vec!["12.5", "*", "x"]);
}
