//! The recursive-descent parser.
//!
//! ```text
//! expr     := add_sub
//! add_sub  := mul_div (('+' | '-') mul_div)*
//! mul_div  := unary (('*' | '/') unary)*
//! unary    := ('+' | '-') unary | power
//! power    := primary ('^' unary)?
//! primary  := NUMBER | IDENT | '(' expr ')'
//! ```
use vstd::prelude::*;

use crate::error::{Fault, ParseError};
use crate::expr::{BinOp, Expr, Term};
use crate::number::{is_number_literal, number_literal};
use crate::tokenize::texts;
use crate::variables::Variables;

verus! {

/// What a parse from some position gives: a term and the position after it, or a fault.
pub type Parsed = Result<(Term, int), Fault>;

/// Whether the token at `pos` is the one-character token `c`.
pub open spec fn tok_is(t: Seq<Seq<char>>, pos: int, c: char) -> bool {
    0 <= pos < t.len() && t[pos] == seq![c]
}

pub open spec fn bin(op: BinOp, a: Term, b: Term) -> Term {
    Term::Bin(op, Box::new(a), Box::new(b))
}

/// `primary` at `pos`; `names` are the bound variables.
pub open spec fn primary_at(t: Seq<Seq<char>>, names: Set<Seq<char>>, pos: int) -> Parsed
    decreases t.len() - pos, 0nat,
{
    if pos < 0 || pos >= t.len() {
        Err(Fault::EmptyExpression)
    } else if t[pos] == seq!['('] {
        match sum_at(t, names, pos + 1) {
            Err(f) => Err(f),
            Ok((e, p)) => if tok_is(t, p, ')') {
                Ok((e, p + 1))
            } else {
                Err(Fault::UnmatchedParen)
            },
        }
    } else if t[pos] == seq![')'] {
        Err(Fault::UnexpectedToken(t[pos]))
    } else if number_literal(t[pos]) {
        Ok((Term::Num(t[pos]), pos + 1))
    } else if names.contains(t[pos]) {
        Ok((Term::Var(t[pos]), pos + 1))
    } else {
        Err(Fault::UnknownVariable(t[pos]))
    }
}

/// `power` at `pos`.
pub open spec fn power_at(t: Seq<Seq<char>>, names: Set<Seq<char>>, pos: int) -> Parsed
    decreases t.len() - pos, 1nat,
{
    match primary_at(t, names, pos) {
        Err(f) => Err(f),
        Ok((b, p)) => if pos < p && tok_is(t, p, '^') {
            match unary_at(t, names, p + 1) {
                Err(f) => Err(f),
                Ok((x, q)) => Ok((bin(BinOp::Pow, b, x), q)),
            }
        } else {
            Ok((b, p))
        },
    }
}

/// `unary` at `pos`.
pub open spec fn unary_at(t: Seq<Seq<char>>, names: Set<Seq<char>>, pos: int) -> Parsed
    decreases t.len() - pos, 2nat,
{
    if tok_is(t, pos, '+') {
        unary_at(t, names, pos + 1)
    } else if tok_is(t, pos, '-') {
        match unary_at(t, names, pos + 1) {
            Err(f) => Err(f),
            Ok((x, q)) => Ok((Term::Neg(Box::new(x)), q)),
        }
    } else {
        power_at(t, names, pos)
    }
}

/// `mul_div` at `pos`.
pub open spec fn product_at(t: Seq<Seq<char>>, names: Set<Seq<char>>, pos: int) -> Parsed
    decreases t.len() - pos, 3nat,
{
    match unary_at(t, names, pos) {
        Err(f) => Err(f),
        Ok((lhs, p)) => if pos < p <= t.len() {
            product_rest(t, names, p, lhs)
        } else {
            Ok((lhs, p))
        },
    }
}

/// The `(('*' | '/') unary)*` tail of `mul_div` at `pos`, after the operand `lhs`.
pub open spec fn product_rest(t: Seq<Seq<char>>, names: Set<Seq<char>>, pos: int, lhs: Term) -> Parsed
    decreases t.len() - pos, 4nat,
{
    if tok_is(t, pos, '*') || tok_is(t, pos, '/') {
        let op = if t[pos] == seq!['*'] { BinOp::Mul } else { BinOp::Div };
        match unary_at(t, names, pos + 1) {
            Err(f) => Err(f),
            Ok((rhs, p)) => if pos < p <= t.len() {
                product_rest(t, names, p, bin(op, lhs, rhs))
            } else {
                Ok((bin(op, lhs, rhs), p))
            },
        }
    } else {
        Ok((lhs, pos))
    }
}

/// `add_sub` (that is, `expr`) at `pos`.
pub open spec fn sum_at(t: Seq<Seq<char>>, names: Set<Seq<char>>, pos: int) -> Parsed
    decreases t.len() - pos, 5nat,
{
    match product_at(t, names, pos) {
        Err(f) => Err(f),
        Ok((lhs, p)) => if pos < p <= t.len() {
            sum_rest(t, names, p, lhs)
        } else {
            Ok((lhs, p))
        },
    }
}

/// The `(('+' | '-') mul_div)*` tail of `add_sub` at `pos`, after the operand `lhs`.
pub open spec fn sum_rest(t: Seq<Seq<char>>, names: Set<Seq<char>>, pos: int, lhs: Term) -> Parsed
    decreases t.len() - pos, 6nat,
{
    if tok_is(t, pos, '+') || tok_is(t, pos, '-') {
        let op = if t[pos] == seq!['+'] { BinOp::Add } else { BinOp::Sub };
        match product_at(t, names, pos + 1) {
            Err(f) => Err(f),
            Ok((rhs, p)) => if pos < p <= t.len() {
                sum_rest(t, names, p, bin(op, lhs, rhs))
            } else {
                Ok((bin(op, lhs, rhs), p))
            },
        }
    } else {
        Ok((lhs, pos))
    }
}

/// The expression that the whole token sequence `t` reads as, with `names` bound.
pub open spec fn expression_of(t: Seq<Seq<char>>, names: Set<Seq<char>>) -> Result<Term, Fault> {
    if t.len() == 0 {
        Err(Fault::EmptyExpression)
    } else {
        match sum_at(t, names, 0) {
            Err(f) => Err(f),
            Ok((e, p)) => if p < t.len() {
                Err(Fault::UnexpectedToken(t[p]))
            } else {
                Ok(e)
            },
        }
    }
}

/// Whether an executable parse result is the spec result `s`.
pub open spec fn agrees(r: Result<(Expr, usize), ParseError>, s: Parsed) -> bool {
    match (r, s) {
        (Ok((e, p)), Ok((x, q))) => e@ == x && p == q,
        (Err(e), Err(f)) => e@ == f,
        _ => false,
    }
}

/// Whether an executable result is the spec result `s`.
pub open spec fn same_result(r: Result<Expr, ParseError>, s: Result<Term, Fault>) -> bool {
    match (r, s) {
        (Ok(e), Ok(x)) => e@ == x,
        (Err(e), Err(f)) => e@ == f,
        _ => false,
    }
}

/// The names bound for a parse: those of `variables`, and `free` if given.
pub open spec fn bound_names<V>(variables: Variables<V>, free: Option<&str>) -> Set<Seq<char>> {
    match free {
        Some(f) => variables@.dom().insert(f@),
        None => variables@.dom(),
    }
}

struct Parser<'a, 'b, V> {
    tokens: &'b Vec<&'a str>,
    variables: &'b Variables<V>,
    free: Option<&'b str>,
}

impl<'a, 'b, V> Parser<'a, 'b, V> {
    spec fn toks(&self) -> Seq<Seq<char>> {
        texts(self.tokens@)
    }

    spec fn names(&self) -> Set<Seq<char>> {
        bound_names(*self.variables, self.free)
    }

    fn is_tok(&self, pos: usize, c: char) -> (r: bool)
        ensures
            r == tok_is(self.toks(), pos as int, c),
            r ==> pos < self.tokens@.len(),
    {
        if pos >= self.tokens.len() {
            return false;
        }
        assert(self.toks()[pos as int] == self.tokens@[pos as int]@);
        crate::chars::is_char_token(self.tokens[pos], c)
    }

    fn is_bound(&self, tok: &str) -> (r: bool)
        requires
            self.variables.wf(),
        ensures
            r == self.names().contains(tok@),
    {
        match self.free {
            Some(f) => crate::chars::same_text(f, tok) || self.variables.contains(tok),
            None => self.variables.contains(tok),
        }
    }

    // expr := add_sub
    fn parse_expr(&self, pos: usize) -> (r: Result<(Expr, usize), ParseError>)
        requires
            self.variables.wf(),
            pos <= self.tokens@.len(),
            self.tokens@.len() <= usize::MAX,
        ensures
            agrees(r, sum_at(self.toks(), self.names(), pos as int)),
            r matches Ok((_, p)) ==> pos < p <= self.tokens@.len(),
        decreases self.tokens@.len() - pos, 5nat,
    {
        self.parse_add_sub(pos)
    }

    fn parse_add_sub(&self, pos: usize) -> (r: Result<(Expr, usize), ParseError>)
        requires
            self.variables.wf(),
            pos <= self.tokens@.len(),
            self.tokens@.len() <= usize::MAX,
        ensures
            agrees(r, sum_at(self.toks(), self.names(), pos as int)),
            r matches Ok((_, p)) ==> pos < p <= self.tokens@.len(),
        decreases self.tokens@.len() - pos, 4nat,
    {
        let (mut lhs, mut p) = match self.parse_mul_div(pos) {
            Ok(x) => x,
            Err(e) => return Err(e),
        };
        loop
            invariant
                self.variables.wf(),
                pos < p <= self.tokens@.len(),
                self.tokens@.len() <= usize::MAX,
                sum_at(self.toks(), self.names(), pos as int)
                    == sum_rest(self.toks(), self.names(), p as int, lhs@),
            decreases self.tokens@.len() - p,
        {
            let op = if self.is_tok(p, '+') {
                BinOp::Add
            } else if self.is_tok(p, '-') {
                BinOp::Sub
            } else {
                return Ok((lhs, p));
            };
            match self.parse_mul_div(p + 1) {
                Ok((rhs, q)) => {
                    lhs = Expr::Binary(op, Box::new(lhs), Box::new(rhs));
                    p = q;
                },
                Err(e) => return Err(e),
            }
        }
    }

    fn parse_mul_div(&self, pos: usize) -> (r: Result<(Expr, usize), ParseError>)
        requires
            self.variables.wf(),
            pos <= self.tokens@.len(),
            self.tokens@.len() <= usize::MAX,
        ensures
            agrees(r, product_at(self.toks(), self.names(), pos as int)),
            r matches Ok((_, p)) ==> pos < p <= self.tokens@.len(),
        decreases self.tokens@.len() - pos, 3nat,
    {
        let (mut lhs, mut p) = match self.parse_unary(pos) {
            Ok(x) => x,
            Err(e) => return Err(e),
        };
        loop
            invariant
                self.variables.wf(),
                pos < p <= self.tokens@.len(),
                self.tokens@.len() <= usize::MAX,
                product_at(self.toks(), self.names(), pos as int)
                    == product_rest(self.toks(), self.names(), p as int, lhs@),
            decreases self.tokens@.len() - p,
        {
            let op = if self.is_tok(p, '*') {
                BinOp::Mul
            } else if self.is_tok(p, '/') {
                BinOp::Div
            } else {
                return Ok((lhs, p));
            };
            match self.parse_unary(p + 1) {
                Ok((rhs, q)) => {
                    lhs = Expr::Binary(op, Box::new(lhs), Box::new(rhs));
                    p = q;
                },
                Err(e) => return Err(e),
            }
        }
    }

    fn parse_unary(&self, pos: usize) -> (r: Result<(Expr, usize), ParseError>)
        requires
            self.variables.wf(),
            pos <= self.tokens@.len(),
            self.tokens@.len() <= usize::MAX,
        ensures
            agrees(r, unary_at(self.toks(), self.names(), pos as int)),
            r matches Ok((_, p)) ==> pos < p <= self.tokens@.len(),
        decreases self.tokens@.len() - pos, 2nat,
    {
        if self.is_tok(pos, '+') {
            return self.parse_unary(pos + 1);
        }
        if self.is_tok(pos, '-') {
            return match self.parse_unary(pos + 1) {
                Ok((x, q)) => Ok((Expr::Negate(Box::new(x)), q)),
                Err(e) => Err(e),
            };
        }
        self.parse_power(pos)
    }

    // Right-associative: the exponent is parsed by `unary`, which comes back to `power`.
    fn parse_power(&self, pos: usize) -> (r: Result<(Expr, usize), ParseError>)
        requires
            self.variables.wf(),
            pos <= self.tokens@.len(),
            self.tokens@.len() <= usize::MAX,
        ensures
            agrees(r, power_at(self.toks(), self.names(), pos as int)),
            r matches Ok((_, p)) ==> pos < p <= self.tokens@.len(),
        decreases self.tokens@.len() - pos, 1nat,
    {
        let (base, p) = match self.parse_primary(pos) {
            Ok(x) => x,
            Err(e) => return Err(e),
        };
        if self.is_tok(p, '^') {
            match self.parse_unary(p + 1) {
                Ok((x, q)) => Ok((Expr::Binary(BinOp::Pow, Box::new(base), Box::new(x)), q)),
                Err(e) => Err(e),
            }
        } else {
            Ok((base, p))
        }
    }

    fn parse_primary(&self, pos: usize) -> (r: Result<(Expr, usize), ParseError>)
        requires
            self.variables.wf(),
            pos <= self.tokens@.len(),
            self.tokens@.len() <= usize::MAX,
        ensures
            agrees(r, primary_at(self.toks(), self.names(), pos as int)),
            r matches Ok((_, p)) ==> pos < p <= self.tokens@.len(),
        decreases self.tokens@.len() - pos, 0nat,
    {
        if pos >= self.tokens.len() {
            return Err(ParseError::EmptyExpression);
        }
        let tok = self.tokens[pos];
        assert(self.toks()[pos as int] == tok@);
        if self.is_tok(pos, '(') {
            return match self.parse_expr(pos + 1) {
                Ok((e, p)) => if self.is_tok(p, ')') {
                    Ok((e, p + 1))
                } else {
                    Err(ParseError::UnmatchedParen)
                },
                Err(e) => Err(e),
            };
        }
        if self.is_tok(pos, ')') {
            return Err(ParseError::UnexpectedToken(String::from_str(tok)));
        }
        if is_number_literal(tok) {
            return Ok((Expr::Number(String::from_str(tok)), pos + 1));
        }
        if self.is_bound(tok) {
            return Ok((Expr::Variable(String::from_str(tok)), pos + 1));
        }
        Err(ParseError::UnknownVariable(String::from_str(tok)))
    }
}

/// Parses `tokens` with the names of `variables` bound, and `free` too if given.
pub fn parse_with<V>(tokens: &Vec<&str>, variables: &Variables<V>, free: Option<&str>) -> (r: Result<Expr, ParseError>)
    requires
        variables.wf(),
    ensures
        same_result(r, expression_of(texts(tokens@), bound_names(*variables, free))),
{
    if tokens.len() == 0 {
        return Err(ParseError::EmptyExpression);
    }
    let parser = Parser { tokens, variables, free };
    assert(tokens@.len() <= usize::MAX);
    let (e, p) = match parser.parse_expr(0) {
        Ok(x) => x,
        Err(e) => return Err(e),
    };
    if p < tokens.len() {
        assert(texts(tokens@)[p as int] == tokens@[p as int]@);
        return Err(ParseError::UnexpectedToken(String::from_str(tokens[p])));
    }
    Ok(e)
}

/// Parses `tokens` as an expression over the bound `variables`.
pub fn calculate<V>(tokens: Vec<&str>, variables: &Variables<V>) -> (r: Result<Expr, ParseError>)
    requires
        variables.wf(),
    ensures
        same_result(r, expression_of(texts(tokens@), variables@.dom())),
{
    parse_with(&tokens, variables, None)
}

} // verus!

verus! {

/// The token of a binary operator.
pub open spec fn op_token(o: BinOp) -> Seq<char> {
    match o {
        BinOp::Add => seq!['+'],
        BinOp::Sub => seq!['-'],
        BinOp::Mul => seq!['*'],
        BinOp::Div => seq!['/'],
        BinOp::Pow => seq!['^'],
    }
}

/// How tightly an operator binds.
pub open spec fn tier(o: BinOp) -> int {
    match o {
        BinOp::Add | BinOp::Sub => 1,
        BinOp::Mul | BinOp::Div => 2,
        BinOp::Pow => 3,
    }
}

/// `a o1 b o2 c` grouped by the usual rules: the tighter operator first; on a tie, from
/// the left, except `^`, which groups from the right.
pub open spec fn grouped(a: Seq<char>, o1: BinOp, b: Seq<char>, o2: BinOp, c: Seq<char>) -> Term {
    if tier(o2) > tier(o1) || (o1 == BinOp::Pow && o2 == BinOp::Pow) {
        bin(o1, Term::Num(a), bin(o2, Term::Num(b), Term::Num(c)))
    } else {
        bin(o2, bin(o1, Term::Num(a), Term::Num(b)), Term::Num(c))
    }
}

/// A number token is a literal, and no operator or parenthesis.
pub proof fn lemma_number_token(a: Seq<char>)
    requires
        crate::tokenize::number_token(a),
    ensures
        number_literal(a),
        a != seq!['('],
        a != seq![')'],
        forall|o: BinOp| a != #[trigger] op_token(o),
{
    assert(crate::chars::digit(a[0]) || a[0] == '.');
    assert(crate::number::unsigned(a) == a);
    crate::number::lemma_exp_at_none(a, 0);
    assert(a.subrange(0, a.len() as int) =~= a);
    assert(seq!['('][0] == '(');
    assert(seq![')'][0] == ')');
    assert forall|o: BinOp| a != #[trigger] op_token(o) by {
        assert(op_token(o)[0] != '.' && !crate::chars::digit(op_token(o)[0]));
    }
}

proof fn lemma_operand(t: Seq<Seq<char>>, names: Set<Seq<char>>, i: int)
    requires
        0 <= i < t.len(),
        crate::tokenize::number_token(t[i]),
    ensures
        primary_at(t, names, i) == Ok::<(Term, int), Fault>((Term::Num(t[i]), i + 1)),
        !tok_is(t, i, '+') && !tok_is(t, i, '-'),
        !tok_is(t, i + 1, '^') ==> unary_at(t, names, i) == Ok::<(Term, int), Fault>((Term::Num(t[i]), i + 1)),
{
    lemma_number_token(t[i]);
    assert(op_token(BinOp::Add) == seq!['+']);
    assert(op_token(BinOp::Sub) == seq!['-']);
    assert(primary_at(t, names, i) == Ok::<(Term, int), Fault>((Term::Num(t[i]), i + 1)));
    if !tok_is(t, i + 1, '^') {
        assert(power_at(t, names, i) == Ok::<(Term, int), Fault>((Term::Num(t[i]), i + 1)));
        assert(unary_at(t, names, i) == power_at(t, names, i));
    }
}

/// Three literals and two operators group by the tiers of the operators: `*` and `/` before
/// `+` and `-`, `^` before both; on a tie from the left, but `^` from the right, so that
/// `2+3*2` is `2+(3*2)`, `2*3^2` is `2*(3^2)` and `2^3^2` is `2^(3^2)`.
pub proof fn lemma_precedence(a: Seq<char>, o1: BinOp, b: Seq<char>, o2: BinOp, c: Seq<char>, names: Set<Seq<char>>)
    requires
        crate::tokenize::number_token(a),
        crate::tokenize::number_token(b),
        crate::tokenize::number_token(c),
    ensures
        expression_of(seq![a, op_token(o1), b, op_token(o2), c], names) == Ok::<Term, Fault>(grouped(a, o1, b, o2, c)),
{
    let t = seq![a, op_token(o1), b, op_token(o2), c];
    lemma_operand(t, names, 0);
    lemma_operand(t, names, 2);
    lemma_operand(t, names, 4);
    lemma_number_token(a);
    lemma_number_token(b);
    lemma_number_token(c);
    assert(t[1] == op_token(o1) && t[3] == op_token(o2));
    assert(seq!['+'][0] == '+' && seq!['-'][0] == '-' && seq!['*'][0] == '*' && seq!['/'][0] == '/' && seq!['^'][0] == '^');
    assert(!tok_is(t, 5, '^'));
    let u4 = Ok::<(Term, int), Fault>((Term::Num(c), 5));
    assert(unary_at(t, names, 4) == u4);
    assert(product_at(t, names, 4) == u4);
    // the operand `b` with what binds to it through `^`
    let (bt, bp) = if o2 == BinOp::Pow { (bin(BinOp::Pow, Term::Num(b), Term::Num(c)), 5int) } else { (Term::Num(b), 3int) };
    assert(unary_at(t, names, 2) == Ok::<(Term, int), Fault>((bt, bp)));
    // the operand `a` with what binds to it through `^`
    let (at, ap) = if o1 == BinOp::Pow { (bin(BinOp::Pow, Term::Num(a), bt), bp) } else { (Term::Num(a), 1int) };
    assert(unary_at(t, names, 0) == Ok::<(Term, int), Fault>((at, ap)));
    assert(expression_of(t, names) == Ok::<Term, Fault>(grouped(a, o1, b, o2, c))) by {
        reveal_with_fuel(product_rest, 3);
        reveal_with_fuel(sum_rest, 3);
        reveal_with_fuel(product_at, 2);
    }
}

/// A leading `-` negates the first operand, and binds looser than `^` only:
/// `-a o b` is `(-a) o b` for `+ - * /`, and `-a^b` is `-(a^b)`.
pub proof fn lemma_leading_minus(a: Seq<char>, o: BinOp, b: Seq<char>, names: Set<Seq<char>>)
    requires
        crate::tokenize::number_token(a),
        crate::tokenize::number_token(b),
    ensures
        expression_of(seq![seq!['-'], a, op_token(o), b], names) == Ok::<Term, Fault>(
            if o == BinOp::Pow {
                Term::Neg(Box::new(bin(BinOp::Pow, Term::Num(a), Term::Num(b))))
            } else {
                bin(o, Term::Neg(Box::new(Term::Num(a))), Term::Num(b))
            },
        ),
{
    let t = seq![seq!['-'], a, op_token(o), b];
    lemma_operand(t, names, 1);
    lemma_operand(t, names, 3);
    lemma_number_token(a);
    lemma_number_token(b);
    assert(t[2] == op_token(o));
    assert(seq!['+'][0] == '+' && seq!['-'][0] == '-' && seq!['*'][0] == '*' && seq!['/'][0] == '/' && seq!['^'][0] == '^');
    assert(tok_is(t, 0, '-') && !tok_is(t, 0, '+'));
    assert(!tok_is(t, 4, '^'));
    let u3 = Ok::<(Term, int), Fault>((Term::Num(b), 4));
    assert(unary_at(t, names, 3) == u3);
    let (at, ap) = if o == BinOp::Pow { (bin(BinOp::Pow, Term::Num(a), Term::Num(b)), 4int) } else { (Term::Num(a), 2int) };
    assert(unary_at(t, names, 1) == Ok::<(Term, int), Fault>((at, ap)));
    assert(unary_at(t, names, 0) == Ok::<(Term, int), Fault>((Term::Neg(Box::new(at)), ap)));
    assert(expression_of(t, names) == Ok::<Term, Fault>(
        if o == BinOp::Pow {
            Term::Neg(Box::new(bin(BinOp::Pow, Term::Num(a), Term::Num(b))))
        } else {
            bin(o, Term::Neg(Box::new(Term::Num(a))), Term::Num(b))
        },
    )) by {
        reveal_with_fuel(product_rest, 2);
        reveal_with_fuel(sum_rest, 2);
    }
}

/// A single letter is no number literal.
pub proof fn lemma_letter_not_literal(x: Seq<char>)
    requires
        crate::tokenize::identifier_token(x),
    ensures
        !number_literal(x),
        x != seq!['('],
        x != seq![')'],
        x != seq!['+'],
        x != seq!['-'],
{
    assert(crate::number::unsigned(x) == x);
    assert(seq!['('][0] == '(' && seq![')'][0] == ')' && seq!['+'][0] == '+' && seq!['-'][0] == '-');
    if x[0] == 'e' || x[0] == 'E' {
        assert(crate::number::exp_at(x, 0) == 0);
        assert(x.subrange(0, 0) =~= seq![]);
    } else {
        assert(crate::number::exp_at(x, 1) == 1);
        assert(crate::number::exp_at(x, 0) == 1);
        assert(x.subrange(0, 1) =~= x);
    }
}

/// An expression that starts with an unbound single-letter name fails on that name.
pub proof fn lemma_unknown_first_name(t: Seq<Seq<char>>, names: Set<Seq<char>>)
    requires
        t.len() > 0,
        crate::tokenize::identifier_token(t[0]),
        !names.contains(t[0]),
    ensures
        expression_of(t, names) == Err::<Term, Fault>(Fault::UnknownVariable(t[0])),
{
    lemma_letter_not_literal(t[0]);
    let e = Err::<(Term, int), Fault>(Fault::UnknownVariable(t[0]));
    assert(primary_at(t, names, 0) == e);
    assert(power_at(t, names, 0) == e);
    assert(unary_at(t, names, 0) == e);
    assert(product_at(t, names, 0) == e);
    assert(sum_at(t, names, 0) == e);
}

/// After an assignment `name = expr` whose expression parses, storing the line and a
/// value under `name` binds it: the name then looks up to that line and value, and the
/// expression `name` parses as that variable.
pub proof fn lemma_assignment_round_trip<V>(line: Seq<char>, env: Map<Seq<char>, (Seq<char>, V)>, value: V)
    requires
        crate::variables::split_assignment(crate::tokenize::tokens_of(line)) is Ok,
        crate::tokenize::identifier_token(crate::variables::split_assignment(crate::tokenize::tokens_of(line))->Ok_0.0),
        expression_of(crate::variables::split_assignment(crate::tokenize::tokens_of(line))->Ok_0.1, env.dom()) is Ok,
    ensures
        ({
            let name = crate::variables::split_assignment(crate::tokenize::tokens_of(line))->Ok_0.0;
            let after = env.insert(name, (line, value));
            &&& after.contains_key(name)
            &&& after[name] == (line, value)
            &&& expression_of(seq![name], after.dom()) == Ok::<Term, Fault>(Term::Var(name))
        }),
{
    let name = crate::variables::split_assignment(crate::tokenize::tokens_of(line))->Ok_0.0;
    let after = env.insert(name, (line, value));
    let t = seq![name];
    lemma_letter_not_literal(name);
    assert(after.dom().contains(name));
    assert(!tok_is(t, 1, '^'));
    assert(primary_at(t, after.dom(), 0) == Ok::<(Term, int), Fault>((Term::Var(name), 1)));
    assert(unary_at(t, after.dom(), 0) == Ok::<(Term, int), Fault>((Term::Var(name), 1)));
    assert(product_at(t, after.dom(), 0) == Ok::<(Term, int), Fault>((Term::Var(name), 1)));
    assert(sum_at(t, after.dom(), 0) == Ok::<(Term, int), Fault>((Term::Var(name), 1)));
}

/// The tokens `first o1 x1 o2 x2 ...` of a chain of literals.
pub open spec fn chain_tokens(first: Seq<char>, rest: Seq<(BinOp, Seq<char>)>) -> Seq<Seq<char>>
    decreases rest.len(),
{
    if rest.len() == 0 {
        seq![first]
    } else {
        chain_tokens(first, rest.drop_last()) + seq![op_token(rest.last().0), rest.last().1]
    }
}

/// The chain grouped from the left: `((first o1 x1) o2 x2) ...`.
pub open spec fn left_grouped(first: Seq<char>, rest: Seq<(BinOp, Seq<char>)>) -> Term
    decreases rest.len(),
{
    if rest.len() == 0 {
        Term::Num(first)
    } else {
        bin(rest.last().0, left_grouped(first, rest.drop_last()), Term::Num(rest.last().1))
    }
}

/// Whether all operators of the chain are of tier `k`, and all operands number tokens.
pub open spec fn chain_of_tier(first: Seq<char>, rest: Seq<(BinOp, Seq<char>)>, k: int) -> bool {
    &&& crate::tokenize::number_token(first)
    &&& forall|i: int| 0 <= i < rest.len() ==> tier(#[trigger] rest[i].0) == k
    &&& forall|i: int| 0 <= i < rest.len() ==> crate::tokenize::number_token(#[trigger] rest[i].1)
}

proof fn lemma_chain_shape(first: Seq<char>, rest: Seq<(BinOp, Seq<char>)>)
    ensures
        chain_tokens(first, rest).len() == 2 * rest.len() + 1,
        chain_tokens(first, rest)[0] == first,
        forall|i: int| 0 <= i < rest.len() ==> chain_tokens(first, rest)[2 * i + 1] == op_token(#[trigger] rest[i].0)
            && chain_tokens(first, rest)[2 * i + 2] == rest[i].1,
        forall|j: int| 0 <= j <= rest.len() ==> #[trigger] chain_tokens(first, rest.subrange(0, j))
            == chain_tokens(first, rest).subrange(0, 2 * j + 1),
    decreases rest.len(),
{
    if rest.len() > 0 {
        let r0 = rest.drop_last();
        lemma_chain_shape(first, r0);
        let t = chain_tokens(first, rest);
        assert forall|i: int| 0 <= i < rest.len() implies t[2 * i + 1] == op_token(#[trigger] rest[i].0)
            && t[2 * i + 2] == rest[i].1 by {
            if i < r0.len() {
                assert(r0[i] == rest[i]);
            }
        }
        assert forall|j: int| 0 <= j <= rest.len() implies #[trigger] chain_tokens(first, rest.subrange(0, j))
            == t.subrange(0, 2 * j + 1) by {
            if j < rest.len() {
                assert(rest.subrange(0, j) =~= r0.subrange(0, j));
                assert(chain_tokens(first, r0).subrange(0, 2 * j + 1) =~= t.subrange(0, 2 * j + 1));
            } else {
                assert(rest.subrange(0, j) =~= rest);
                assert(t.subrange(0, 2 * j + 1) =~= t);
            }
        }
    }
}

proof fn lemma_op_token_tier(o: BinOp)
    ensures
        op_token(o).len() == 1,
        (op_token(o) == seq!['+']) == (o == BinOp::Add),
        (op_token(o) == seq!['-']) == (o == BinOp::Sub),
        (op_token(o) == seq!['*']) == (o == BinOp::Mul),
        (op_token(o) == seq!['/']) == (o == BinOp::Div),
        (op_token(o) == seq!['^']) == (o == BinOp::Pow),
{
    assert(seq!['+'][0] == '+' && seq!['-'][0] == '-' && seq!['*'][0] == '*' && seq!['/'][0] == '/' && seq!['^'][0] == '^');
    assert(op_token(o)[0] == op_token(o)[0]);
}

/// Literals joined by `+` and `-` only group from the left, however many there are:
/// `a - b + c - d` is `((a - b) + c) - d`.
pub proof fn lemma_sum_chain(first: Seq<char>, rest: Seq<(BinOp, Seq<char>)>, names: Set<Seq<char>>)
    requires
        chain_of_tier(first, rest, 1),
    ensures
        expression_of(chain_tokens(first, rest), names) == Ok::<Term, Fault>(left_grouped(first, rest)),
{
    let t = chain_tokens(first, rest);
    lemma_chain_shape(first, rest);
    let n = rest.len() as int;
    // every operand stands alone: the token after it is `+`, `-` or the end
    assert forall|i: int| 0 <= i <= n implies #[trigger] product_at(t, names, 2 * i) == Ok::<(Term, int), Fault>(
        (Term::Num(t[2 * i]), 2 * i + 1)) by {
        if i < n {
            lemma_op_token_tier(rest[i].0);
        }
        if i > 0 {
            assert(t[2 * (i - 1) + 1] == op_token(rest[i - 1].0));
            assert(t[2 * i] == rest[i - 1].1);
        }
        lemma_operand(t, names, 2 * i);
        assert(!tok_is(t, 2 * i + 1, '*') && !tok_is(t, 2 * i + 1, '/'));
    }
    // the tail, from the operator after the `j`th operand on
    assert forall|j: int| 0 <= j <= n implies #[trigger] sum_rest(t, names, 2 * j + 1, left_grouped(first, rest.subrange(0, j)))
        == Ok::<(Term, int), Fault>((left_grouped(first, rest), 2 * n + 1)) by {
        lemma_sum_rest_chain(first, rest, names, j);
    }
    assert(rest.subrange(0, 0) =~= seq![]);
    assert(left_grouped(first, rest.subrange(0, 0)) == Term::Num(first));
    let z = 0int;
    assert(product_at(t, names, 2 * z) == Ok::<(Term, int), Fault>((Term::Num(t[2 * z]), 2 * z + 1)));
    assert(product_at(t, names, 0) == Ok::<(Term, int), Fault>((Term::Num(first), 1)));
    assert(sum_rest(t, names, 2 * z + 1, left_grouped(first, rest.subrange(0, z)))
        == Ok::<(Term, int), Fault>((left_grouped(first, rest), 2 * n + 1)));
    assert(sum_at(t, names, 0) == sum_rest(t, names, 1, Term::Num(first)));
    assert(rest.subrange(0, n) =~= rest);
}

proof fn lemma_sum_rest_chain(first: Seq<char>, rest: Seq<(BinOp, Seq<char>)>, names: Set<Seq<char>>, j: int)
    requires
        chain_of_tier(first, rest, 1),
        0 <= j <= rest.len(),
    ensures
        sum_rest(chain_tokens(first, rest), names, 2 * j + 1, left_grouped(first, rest.subrange(0, j)))
            == Ok::<(Term, int), Fault>((left_grouped(first, rest), 2 * rest.len() + 1int)),
    decreases rest.len() - j,
{
    let t = chain_tokens(first, rest);
    lemma_chain_shape(first, rest);
    let n = rest.len() as int;
    if j == n {
        assert(rest.subrange(0, j) =~= rest);
        assert(!tok_is(t, 2 * n + 1, '+') && !tok_is(t, 2 * n + 1, '-'));
    } else {
        lemma_op_token_tier(rest[j].0);
        if j + 1 < n {
            lemma_op_token_tier(rest[j + 1].0);
        }
        lemma_operand(t, names, 2 * j + 2);
        assert(!tok_is(t, 2 * j + 3, '*') && !tok_is(t, 2 * j + 3, '/'));
        assert(product_at(t, names, 2 * j + 2) == Ok::<(Term, int), Fault>((Term::Num(rest[j].1), 2 * j + 3)));
        let sub = rest.subrange(0, j + 1);
        assert(sub.drop_last() =~= rest.subrange(0, j));
        assert(sub.last() == rest[j]);
        assert(left_grouped(first, sub) == bin(rest[j].0, left_grouped(first, rest.subrange(0, j)), Term::Num(rest[j].1)));
        lemma_sum_rest_chain(first, rest, names, j + 1);
    }
}

/// Literals joined by `*` and `/` only group from the left, however many there are:
/// `a / b * c / d` is `((a / b) * c) / d`.
pub proof fn lemma_product_chain(first: Seq<char>, rest: Seq<(BinOp, Seq<char>)>, names: Set<Seq<char>>)
    requires
        chain_of_tier(first, rest, 2),
    ensures
        expression_of(chain_tokens(first, rest), names) == Ok::<Term, Fault>(left_grouped(first, rest)),
{
    let t = chain_tokens(first, rest);
    lemma_chain_shape(first, rest);
    let n = rest.len() as int;
    if n > 0 {
        lemma_op_token_tier(rest[0].0);
    }
    lemma_operand(t, names, 0);
    assert(!tok_is(t, 1, '^'));
    assert(unary_at(t, names, 0) == Ok::<(Term, int), Fault>((Term::Num(first), 1)));
    let z = 0int;
    lemma_product_rest_chain(first, rest, names, z);
    assert(rest.subrange(0, 0) =~= seq![]);
    assert(left_grouped(first, rest.subrange(0, z)) == Term::Num(first));
    assert(product_at(t, names, 0) == Ok::<(Term, int), Fault>((left_grouped(first, rest), 2 * n + 1)));
    assert(!tok_is(t, 2 * n + 1, '+') && !tok_is(t, 2 * n + 1, '-'));
    assert(sum_rest(t, names, 2 * n + 1, left_grouped(first, rest))
        == Ok::<(Term, int), Fault>((left_grouped(first, rest), 2 * n + 1)));
}

proof fn lemma_product_rest_chain(first: Seq<char>, rest: Seq<(BinOp, Seq<char>)>, names: Set<Seq<char>>, j: int)
    requires
        chain_of_tier(first, rest, 2),
        0 <= j <= rest.len(),
    ensures
        product_rest(chain_tokens(first, rest), names, 2 * j + 1, left_grouped(first, rest.subrange(0, j)))
            == Ok::<(Term, int), Fault>((left_grouped(first, rest), 2 * rest.len() + 1int)),
    decreases rest.len() - j,
{
    let t = chain_tokens(first, rest);
    lemma_chain_shape(first, rest);
    let n = rest.len() as int;
    if j == n {
        assert(rest.subrange(0, j) =~= rest);
        assert(!tok_is(t, 2 * n + 1, '*') && !tok_is(t, 2 * n + 1, '/'));
    } else {
        lemma_op_token_tier(rest[j].0);
        if j + 1 < n {
            lemma_op_token_tier(rest[j + 1].0);
        }
        lemma_operand(t, names, 2 * j + 2);
        assert(!tok_is(t, 2 * j + 3, '^'));
        assert(unary_at(t, names, 2 * j + 2) == Ok::<(Term, int), Fault>((Term::Num(rest[j].1), 2 * j + 3)));
        let sub = rest.subrange(0, j + 1);
        assert(sub.drop_last() =~= rest.subrange(0, j));
        assert(sub.last() == rest[j]);
        assert(left_grouped(first, sub) == bin(rest[j].0, left_grouped(first, rest.subrange(0, j)), Term::Num(rest[j].1)));
        lemma_product_rest_chain(first, rest, names, j + 1);
    }
}

/// The `j`th operand of a chain.
pub open spec fn chain_operand(first: Seq<char>, rest: Seq<(BinOp, Seq<char>)>, j: int) -> Seq<char> {
    if j == 0 { first } else { rest[j - 1].1 }
}

/// The chain from its `j`th operand on, grouped from the right with `^`:
/// `xj ^ (xj+1 ^ (...))`.
pub open spec fn right_grouped(first: Seq<char>, rest: Seq<(BinOp, Seq<char>)>, j: int) -> Term
    decreases rest.len() - j,
{
    if j >= rest.len() {
        Term::Num(chain_operand(first, rest, j))
    } else {
        bin(BinOp::Pow, Term::Num(chain_operand(first, rest, j)), right_grouped(first, rest, j + 1))
    }
}

/// Literals joined by `^` only group from the right, however many there are:
/// `a ^ b ^ c ^ d` is `a ^ (b ^ (c ^ d))`.
pub proof fn lemma_power_chain(first: Seq<char>, rest: Seq<(BinOp, Seq<char>)>, names: Set<Seq<char>>)
    requires
        chain_of_tier(first, rest, 3),
    ensures
        expression_of(chain_tokens(first, rest), names) == Ok::<Term, Fault>(right_grouped(first, rest, 0)),
{
    let t = chain_tokens(first, rest);
    lemma_chain_shape(first, rest);
    let n = rest.len() as int;
    lemma_power_rest_chain(first, rest, names, 0);
    assert(unary_at(t, names, 0) == Ok::<(Term, int), Fault>((right_grouped(first, rest, 0), 2 * n + 1)));
    assert(!tok_is(t, 2 * n + 1, '*') && !tok_is(t, 2 * n + 1, '/'));
    assert(!tok_is(t, 2 * n + 1, '+') && !tok_is(t, 2 * n + 1, '-'));
    assert(product_at(t, names, 0) == Ok::<(Term, int), Fault>((right_grouped(first, rest, 0), 2 * n + 1)));
}

proof fn lemma_power_rest_chain(first: Seq<char>, rest: Seq<(BinOp, Seq<char>)>, names: Set<Seq<char>>, j: int)
    requires
        chain_of_tier(first, rest, 3),
        0 <= j <= rest.len(),
    ensures
        unary_at(chain_tokens(first, rest), names, 2 * j)
            == Ok::<(Term, int), Fault>((right_grouped(first, rest, j), 2 * rest.len() + 1int)),
    decreases rest.len() - j,
{
    let t = chain_tokens(first, rest);
    lemma_chain_shape(first, rest);
    let n = rest.len() as int;
    if j > 0 {
        assert(t[2 * (j - 1) + 1] == op_token(rest[j - 1].0));
        assert(t[2 * j] == rest[j - 1].1);
    }
    assert(t[2 * j] == chain_operand(first, rest, j));
    lemma_operand(t, names, 2 * j);
    if j == n {
        assert(!tok_is(t, 2 * n + 1, '^'));
    } else {
        lemma_op_token_tier(rest[j].0);
        assert(t[2 * j + 1] == op_token(rest[j].0));
        assert(tok_is(t, 2 * j + 1, '^'));
        lemma_power_rest_chain(first, rest, names, j + 1);
        assert(power_at(t, names, 2 * j) == Ok::<(Term, int), Fault>((right_grouped(first, rest, j), 2 * n + 1)));
    }
}

} // verus!
