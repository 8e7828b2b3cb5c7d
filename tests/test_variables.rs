use rustic_calc::error::ParseError;
use rustic_calc::tokenize::tokenize;
use rustic_calc::variables::{parse_variables, VariableEntry, Variables};

#[test]
fn test_parse_variables() {
    let res = parse_variables(vec!["x", "=", "2"]).unwrap();
    assert_eq!(res.var_name, "x".to_string());
    assert_eq!(res.tokens, vec!["2"]);
}

#[test]
fn test_parse_variables_formula() {
    let res = parse_variables(vec!["x", "=", "2", "+", "3"]).unwrap();
    assert_eq!(res.var_name, "x".to_string());
    assert_eq!(res.tokens, vec!["2", "+", "3"]);
}

#[test]
fn parse_variables_without_assignment_fails() {
    let res = parse_variables(vec!["2", "+", "3"]);
    assert_eq!(res.unwrap_err(), ParseError::AssignmentMissing);
    assert_eq!(ParseError::AssignmentMissing.message(), "No assignment found");
}

#[test]
fn parse_variables_without_name_fails() {
    let res = parse_variables(vec!["=", "3"]);
    assert_eq!(res.unwrap_err(), ParseError::AssignmentMissingName);
    assert_eq!(
        ParseError::AssignmentMissingName.message(),
        "Missing variable name before '='"
    );
}

#[test]
fn parse_variables_splits_at_the_first_assignment() {
    let res = parse_variables(tokenize("a b = c = 1")).unwrap();
    assert_eq!(res.var_name, "b");
    assert_eq!(res.tokens, vec!["c", "=", "1"]);
}

#[test]
fn variables_store_and_replace_entries() {
    let mut vars: Variables<f64> = Variables::new();
    assert_eq!(vars.len(), 0);
    assert!(!vars.contains("x"));
    vars.insert(
        "x".to_string(),
        VariableEntry { expression: "x=2".to_string(), value: 2.0 },
    );
    vars.insert(
        "y".to_string(),
        VariableEntry { expression: "y=3".to_string(), value: 3.0 },
    );
    assert_eq!(vars.len(), 2);
    assert_eq!(vars.get("x").unwrap().value, 2.0);
    vars.insert(
        "x".to_string(),
        VariableEntry { expression: "x=5".to_string(), value: 5.0 },
    );
    assert_eq!(vars.len(), 2);
    let x = vars.get("x").unwrap();
    assert_eq!(x.expression, "x=5");
    assert_eq!(x.value, 5.0);
    assert!(vars.get("z").is_none());
    assert_eq!(vars.names(), vec!["x".to_string(), "y".to_string()]);
}
