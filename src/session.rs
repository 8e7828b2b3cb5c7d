//! What to do with a submitted line: the decisions of the calculator shell.
use vstd::prelude::*;

use crate::calculate::{expression_of, parse_with};
use crate::chars::is_char_token;
use crate::error::{Fault, ParseError, string_texts};
use crate::expr::{Expr, Term};
use crate::inspect::{inspect_unknown_variables, unknowns};
use crate::tokenize::{texts, tokenize, tokens_of};
use crate::variables::{parse_variables, split_assignment, Variables};

verus! {

/// The first integer at which a function of one variable is sampled for plotting.
pub const PLOT_FROM: i64 = -10;

/// The last integer at which a function of one variable is sampled for plotting.
pub const PLOT_TO: i64 = 9;

/// What the shell is to do with a submitted line.
#[derive(Debug)]
pub enum Submission {
    /// Nothing: the line is empty.
    Empty,
    /// Record the line with this error.
    Failed(ParseError),
    /// Evaluate the expression and record the line with its value.
    Evaluate(Expr),
    /// Evaluate the expression and bind the named variable to the line and its value.
    Assign(String, Expr),
    /// Sample the expression as a function of the named variable.
    Plot(String, Expr),
}

/// The mathematical value of a [`Submission`].
pub enum Outcome {
    Empty,
    Failed(Fault),
    Evaluate(Term),
    Assign(Seq<char>, Term),
    Plot(Seq<char>, Term),
}

impl View for Submission {
    type V = Outcome;

    open spec fn view(&self) -> Outcome {
        match self {
            Submission::Empty => Outcome::Empty,
            Submission::Failed(e) => Outcome::Failed(e@),
            Submission::Evaluate(e) => Outcome::Evaluate(e@),
            Submission::Assign(n, e) => Outcome::Assign(n@, e@),
            Submission::Plot(n, e) => Outcome::Plot(n@, e@),
        }
    }
}

/// What the line `line` asks for, with the variables `names` bound.
///
/// A line with `=` is an assignment: the name before the first `=`, the expression after
/// it. Two or more unknown identifiers in the expression fail together; one unknown in a
/// plain expression makes it a function of that variable, to plot; otherwise the
/// expression is parsed, and evaluated or assigned.
pub open spec fn plan_of(line: Seq<char>, names: Set<Seq<char>>) -> Outcome {
    let t = tokens_of(line);
    if line.len() == 0 {
        Outcome::Empty
    } else if t.contains(seq!['=']) && split_assignment(t) is Err {
        Outcome::Failed(split_assignment(t)->Err_0)
    } else {
        let assigned = t.contains(seq!['=']);
        let body = if assigned { split_assignment(t)->Ok_0.1 } else { t };
        let u = unknowns(body, names);
        if u.len() >= 2 {
            Outcome::Failed(Fault::UnknownVariables(u))
        } else if u.len() == 1 && !assigned {
            match expression_of(body, names.insert(u[0])) {
                Ok(e) => Outcome::Plot(u[0], e),
                Err(f) => Outcome::Failed(f),
            }
        } else {
            match expression_of(body, names) {
                Err(f) => Outcome::Failed(f),
                Ok(e) => if assigned {
                    Outcome::Assign(split_assignment(t)->Ok_0.0, e)
                } else {
                    Outcome::Evaluate(e)
                },
            }
        }
    }
}

fn has_assign(tokens: &Vec<&str>) -> (r: bool)
    ensures
        r == texts(tokens@).contains(seq!['=']),
{
    let mut i: usize = 0;
    while i < tokens.len()
        invariant
            i <= tokens@.len(),
            forall|k: int| 0 <= k < i ==> #[trigger] tokens@[k]@ != seq!['='],
        decreases tokens@.len() - i,
    {
        if is_char_token(tokens[i], '=') {
            assert(texts(tokens@)[i as int] == seq!['=']);
            return true;
        }
        i += 1;
    }
    proof {
        if texts(tokens@).contains(seq!['=']) {
            let k = choose|k: int| 0 <= k < tokens@.len() && texts(tokens@)[k] == seq!['='];
            assert(tokens@[k]@ == seq!['=']);
        }
    }
    false
}

/// Decides what to do with the submitted line `input`, given the bound `variables`.
pub fn plan_submission<V>(input: &str, variables: &Variables<V>) -> (r: Submission)
    requires
        variables.wf(),
    ensures
        r@ == plan_of(input@, variables@.dom()),
{
    if input.unicode_len() == 0 {
        return Submission::Empty;
    }
    let tokens = tokenize(input);
    let assigned = has_assign(&tokens);
    let (name, body) = if assigned {
        match parse_variables(tokens) {
            Ok(v) => (Some(v.var_name), v.tokens),
            Err(e) => return Submission::Failed(e),
        }
    } else {
        (None, tokens)
    };
    let unknown = inspect_unknown_variables(&body, variables);
    assert(string_texts(unknown@).len() == unknown@.len());
    if unknown.len() >= 2 {
        return Submission::Failed(ParseError::UnknownVariables(unknown));
    }
    if unknown.len() == 1 && name.is_none() {
        let var = unknown[0].clone();
        assert(string_texts(unknown@)[0] == var@);
        return match parse_with(&body, variables, Some(var.as_str())) {
            Ok(e) => Submission::Plot(var, e),
            Err(e) => Submission::Failed(e),
        };
    }
    match parse_with(&body, variables, None) {
        Err(e) => Submission::Failed(e),
        Ok(e) => match name {
            Some(n) => Submission::Assign(n, e),
            None => Submission::Evaluate(e),
        },
    }
}

/// The integers from `from` to `to`, both included, in order.
pub fn plot_samples(from: i64, to: i64) -> (r: Vec<i64>)
    ensures
        r@.len() == if from <= to { to - from + 1 } else { 0 },
        forall|k: int| 0 <= k < r@.len() ==> #[trigger] r@[k] == from + k,
{
    let mut r: Vec<i64> = Vec::new();
    if from > to {
        return r;
    }
    let mut x = from;
    loop
        invariant
            from <= x <= to,
            r@.len() == x - from,
            forall|k: int| 0 <= k < r@.len() ==> #[trigger] r@[k] == from + k,
        decreases to - x,
    {
        r.push(x);
        if x == to {
            return r;
        }
        x += 1;
    }
}

/// An assignment whose expression holds two or more unknown identifiers fails as a whole,
/// naming them all in order of first occurrence; nothing is evaluated or bound.
pub proof fn lemma_assignment_with_unknowns(line: Seq<char>, names: Set<Seq<char>>)
    requires
        line.len() > 0,
        split_assignment(tokens_of(line)) is Ok,
        unknowns(split_assignment(tokens_of(line))->Ok_0.1, names).len() >= 2,
    ensures
        plan_of(line, names) == Outcome::Failed(
            Fault::UnknownVariables(unknowns(split_assignment(tokens_of(line))->Ok_0.1, names)),
        ),
{
    let t = tokens_of(line);
    crate::variables::lemma_split_has_assign(t);
}

/// One line of the history: an expression with its value or its error, or neither for a
/// plotted function.
#[derive(Debug)]
pub struct History<V> {
    pub expression: String,
    pub result: Option<V>,
    pub error: Option<String>,
}

/// The state of a calculator session: the history, the variables and the last plot.
pub struct AppState<V> {
    pub history: Vec<History<V>>,
    pub variables: Variables<V>,
    pub plot_data: Option<Vec<(V, V)>>,
}

impl<V> AppState<V> {
    pub open spec fn wf(&self) -> bool {
        self.variables.wf()
    }

    /// An empty session.
    pub fn new() -> (r: Self)
        ensures
            r.wf(),
            r.history@.len() == 0,
            r.variables@ == Map::<Seq<char>, (Seq<char>, V)>::empty(),
            r.plot_data is None,
    {
        AppState { history: Vec::new(), variables: Variables::new(), plot_data: None }
    }

    /// What to do with the submitted line `input`.
    pub fn plan(&self, input: &str) -> (r: Submission)
        requires
            self.wf(),
        ensures
            r@ == plan_of(input@, self.variables@.dom()),
    {
        plan_submission(input, &self.variables)
    }

    /// Records `expression` with `error` in the history; nothing else changes.
    pub fn record_error(&mut self, expression: String, error: &ParseError)
        requires
            old(self).wf(),
        ensures
            final(self).wf(),
            final(self).history@.len() == old(self).history@.len() + 1,
            final(self).history@.drop_last() == old(self).history@,
            final(self).history@.last().expression@ == expression@,
            final(self).history@.last().result is None,
            final(self).history@.last().error matches Some(m) && m@ == crate::error::message_of(error@),
            final(self).variables == old(self).variables,
            final(self).plot_data == old(self).plot_data,
    {
        let message = error.message();
        self.history.push(History { expression, result: None, error: Some(message) });
        assert(self.history@.drop_last() =~= old(self).history@);
    }

    /// Records `expression` with its `value` in the history; nothing else changes.
    pub fn record_value(&mut self, expression: String, value: V)
        requires
            old(self).wf(),
        ensures
            final(self).wf(),
            final(self).history@.len() == old(self).history@.len() + 1,
            final(self).history@.drop_last() == old(self).history@,
            final(self).history@.last().expression@ == expression@,
            final(self).history@.last().result == Some(value),
            final(self).history@.last().error is None,
            final(self).variables == old(self).variables,
            final(self).plot_data == old(self).plot_data,
    {
        self.history.push(History { expression, result: Some(value), error: None });
        assert(self.history@.drop_last() =~= old(self).history@);
    }

    /// Binds `name` to the assignment line `expression` and its `value`; the history is
    /// left as it is.
    pub fn record_assignment(&mut self, name: String, expression: String, value: V)
        requires
            old(self).wf(),
        ensures
            final(self).wf(),
            final(self).variables@ == old(self).variables@.insert(name@, (expression@, value)),
            final(self).history == old(self).history,
            final(self).plot_data == old(self).plot_data,
    {
        self.variables.insert(name, crate::variables::VariableEntry { expression, value });
    }

    /// Keeps the sampled `points` of a plotted function and records `expression`, with
    /// neither value nor error, in the history.
    pub fn record_plot(&mut self, expression: String, points: Vec<(V, V)>)
        requires
            old(self).wf(),
        ensures
            final(self).wf(),
            final(self).plot_data == Some(points),
            final(self).history@.len() == old(self).history@.len() + 1,
            final(self).history@.drop_last() == old(self).history@,
            final(self).history@.last().expression@ == expression@,
            final(self).history@.last().result is None,
            final(self).history@.last().error is None,
            final(self).variables == old(self).variables,
    {
        self.plot_data = Some(points);
        self.history.push(History { expression, result: None, error: None });
        assert(self.history@.drop_last() =~= old(self).history@);
    }
}

} // verus!
