use rustic_calc::error::ParseError;
use rustic_calc::expr::{BinOp, Expr};
use rustic_calc::session::{plot_samples, AppState, Submission, PLOT_FROM, PLOT_TO};
use rustic_calc::types::{Focus, YankFlash};
use rustic_calc::variables::Variables;

fn eval(e: &Expr, vars: &Variables<f64>, free: Option<(&str, f64)>) -> f64 {
    match e {
        Expr::Number(s) => s.parse().unwrap(),
        Expr::Variable(n) => match free {
            Some((name, x)) if name == n => x,
            _ => vars.get(n).unwrap().value,
        },
        Expr::Negate(a) => -eval(a, vars, free),
        Expr::Binary(op, a, b) => {
            let (x, y) = (eval(a, vars, free), eval(b, vars, free));
            match op {
                BinOp::Add => x + y,
                BinOp::Sub => x - y,
                BinOp::Mul => x * y,
                BinOp::Div => x / y,
                BinOp::Pow => x.powf(y),
            }
        }
    }
}

/// Submits `line` the way the shell does.
fn submit(state: &mut AppState<f64>, line: &str) {
    match state.plan(line) {
        Submission::Empty => {}
        Submission::Failed(e) => state.record_error(line.to_string(), &e),
        Submission::Evaluate(e) => {
            let v = eval(&e, &state.variables, None);
            state.record_value(line.to_string(), v);
        }
        Submission::Assign(name, e) => {
            let v = eval(&e, &state.variables, None);
            state.record_assignment(name, line.to_string(), v);
        }
        Submission::Plot(name, e) => {
            let points = plot_samples(PLOT_FROM, PLOT_TO)
                .into_iter()
                .map(|x| (x as f64, eval(&e, &state.variables, Some((&name, x as f64)))))
                .collect();
            state.record_plot(line.to_string(), points);
        }
    }
}

#[test]
fn submit_records_success() {
    let mut app = AppState::new();
    submit(&mut app, "2+2");
    assert_eq!(app.history.len(), 1);
    assert_eq!(app.history[0].expression, "2+2");
    assert_eq!(app.history[0].result, Some(4.0));
    assert_eq!(app.history[0].error, None);
}

#[test]
fn submit_records_composite_unknown_error() {
    let mut app = AppState::<f64>::new();
    submit(&mut app, "asdf");
    assert_eq!(app.history.len(), 1);
    assert_eq!(app.history[0].expression, "asdf");
    assert_eq!(app.history[0].result, None);
    assert_eq!(
        app.history[0].error.as_deref(),
        Some("Unknown variables: a, s, d, f")
    );
}

#[test]
fn save_variable_then_use_it() {
    let mut app = AppState::new();
    submit(&mut app, "x=2");
    assert_eq!(app.history.len(), 0);
    assert_eq!(app.variables.get("x").unwrap().expression, "x=2".to_string());
    assert_eq!(app.variables.get("x").unwrap().value, 2.0);

    submit(&mut app, "y=x*3+1");
    assert_eq!(app.variables.get("y").unwrap().value, 7.0);
    submit(&mut app, "y");
    assert_eq!(app.history[0].result, Some(7.0));
    submit(&mut app, "x=5");
    assert_eq!(app.variables.get("x").unwrap().value, 5.0);
    assert_eq!(app.variables.len(), 2);
}

#[test]
fn plot_expression_samples_the_free_variable() {
    let mut app = AppState::new();
    match app.plan("7x+1") {
        Submission::Plot(name, e) => {
            assert_eq!(name, "x");
            assert_eq!(
                e,
                Expr::Binary(
                    BinOp::Add,
                    Box::new(Expr::Binary(
                        BinOp::Mul,
                        Box::new(Expr::Number("7".to_string())),
                        Box::new(Expr::Variable("x".to_string()))
                    )),
                    Box::new(Expr::Number("1".to_string()))
                )
            );
        }
        other => panic!("expected a plot, got {other:?}"),
    }
    submit(&mut app, "7x+1");
    assert_eq!(app.history.len(), 1);
    assert_eq!(app.history[0].result, None);
    assert_eq!(app.history[0].error, None);
    let plot_data = app.plot_data.unwrap();
    assert_eq!(plot_data.len(), 20);
    assert_eq!(plot_data[0], (-10.0, -69.0));
    assert_eq!(plot_data[10], (0.0, 1.0));
    assert_eq!(plot_data[19], (9.0, 64.0));
    for (x, y) in plot_data {
        assert_eq!(y, 7.0 * x + 1.0);
    }
}

#[test]
fn assignment_with_several_unknowns_fails_as_a_whole() {
    let mut app = AppState::new();
    submit(&mut app, "z=3");
    submit(&mut app, "x=a+b*a");
    assert_eq!(app.history.len(), 1);
    assert_eq!(
        app.history[0].error.as_deref(),
        Some("Unknown variables: a, b")
    );
    assert_eq!(app.variables.len(), 1);
    assert!(app.variables.get("x").is_none());
    match app.plan("x=b+a") {
        Submission::Failed(ParseError::UnknownVariables(names)) => {
            assert_eq!(names, vec!["b".to_string(), "a".to_string()])
        }
        other => panic!("expected a failure, got {other:?}"),
    }
}

#[test]
fn assignment_with_one_unknown_fails_on_it() {
    let mut app = AppState::<f64>::new();
    match app.plan("y=7x") {
        Submission::Failed(e) => assert_eq!(e, ParseError::UnknownVariable("x".to_string())),
        other => panic!("expected a failure, got {other:?}"),
    }
}

#[test]
fn empty_and_malformed_lines() {
    let app = AppState::<f64>::new();
    assert!(matches!(app.plan(""), Submission::Empty));
    match app.plan("=3") {
        Submission::Failed(e) => assert_eq!(e, ParseError::AssignmentMissingName),
        other => panic!("expected a failure, got {other:?}"),
    }
    match app.plan("   ") {
        Submission::Failed(e) => assert_eq!(e, ParseError::EmptyExpression),
        other => panic!("expected a failure, got {other:?}"),
    }
}

#[test]
fn plot_samples_cover_the_range() {
    let xs = plot_samples(-10, 9);
    assert_eq!(xs.len(), 20);
    assert_eq!(xs[0], -10);
    assert_eq!(xs[19], 9);
    assert!(plot_samples(3, 2).is_empty());
    assert_eq!(plot_samples(4, 4), vec![4]);
}

#[test]
fn focus_cycles_both_ways() {
    assert_eq!(Focus::Input.next(), Focus::History);
    assert_eq!(Focus::History.next(), Focus::Variables);
    assert_eq!(Focus::Variables.next(), Focus::Input);
    assert_eq!(Focus::Input.prev(), Focus::Variables);
    assert_eq!(Focus::Variables.prev(), Focus::History);
    assert_eq!(Focus::History.prev(), Focus::Input);
}

#[test]
fn yank_flash_expires() {
    let flash = YankFlash { start: 0, end: 1, expires_at: 100 };
    assert!(flash.is_active(99));
    assert!(!flash.is_active(100));
}
