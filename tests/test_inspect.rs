use rustic_calc::inspect::inspect_unknown_variables;
use rustic_calc::variables::{VariableEntry, Variables};

fn with_a() -> Variables<f64> {
    let mut vars = Variables::new();
    vars.insert(
        "a".to_string(),
        VariableEntry { expression: "a=1".to_string(), value: 1.0 },
    );
    vars
}

#[test]
fn inspect_zero_unknown_variables() {
    let unknown_variables = inspect_unknown_variables(&vec!["2", "+", "2"], &Variables::<f64>::new());
    assert!(unknown_variables.is_empty());

    let unknown_variables = inspect_unknown_variables(&vec!["2", "+", "a"], &with_a());
    assert!(unknown_variables.is_empty());
}

#[test]
fn inspect_one_variable() {
    let unknown_variables = inspect_unknown_variables(&vec!["2", "+", "a"], &Variables::<f64>::new());
    assert_eq!(unknown_variables.len(), 1);
    assert_eq!(unknown_variables[0], "a".to_string());
}

#[test]
fn inspect_duplicate_variables() {
    let unknown_variables =
        inspect_unknown_variables(&vec!["2", "+", "a", "*", "a"], &Variables::<f64>::new());
    assert_eq!(unknown_variables.len(), 1);
    assert_eq!(unknown_variables[0], "a".to_string());
}

#[test]
fn inspect_phrase() {
    let unknown_variables = inspect_unknown_variables(
        &vec!["3", "*", "(", "2", "-", "5", ")"],
        &Variables::<f64>::new(),
    );
    assert!(unknown_variables.is_empty());
}

#[test]
fn inspect_keeps_first_occurrence_order() {
    let unknown = inspect_unknown_variables(
        &vec!["b", "*", "a", "+", "b", "=", "c", "1e3", "inf"],
        &with_a(),
    );
    assert_eq!(unknown, vec!["b".to_string(), "c".to_string()]);
}
