//! An expression calculator's core: a tokenizer, a recursive-descent parser with implicit
//! multiplication, an unknown-variable inspector, the decisions of its shell, and a
//! vi-style line editor.
use vstd::prelude::*;

pub mod chars;
pub mod tokenize;
pub mod number;
pub mod error;
pub mod variables;
pub mod expr;
pub mod calculate;
pub mod inspect;
pub mod session;
pub mod editor_model;
pub mod input_editor;
pub mod types;

use crate::chars::{chars_of, digit, is_ascii_digit, is_ascii_whitespace, is_char_token, space};
use crate::expr::{BinOp, Expr, Term};
use crate::number::{is_number_literal, number_literal};
use crate::tokenize::{run_len, texts};

verus! {

/// The tokens of `s` from position `i` on, appended to `acc`, in the plain notation: numbers,
/// `+ - * / ^`, and `x` for `*`; everything else is dropped.
pub open spec fn plain_tokens_from(s: Seq<char>, i: int, acc: Seq<Seq<char>>) -> Seq<Seq<char>>
    decreases s.len() - i
    via plain_tokens_from_decreases
{
    if i < 0 || i >= s.len() {
        acc
    } else {
        let c = s[i];
        if space(c) {
            plain_tokens_from(s, i + 1, acc)
        } else if digit(c) || c == '.' {
            let j = i + 1 + run_len(s, i + 1, c == '.');
            plain_tokens_from(s, j, acc.push(s.subrange(i, j)))
        } else if c == '+' || c == '-' || c == '*' || c == '/' || c == '^' {
            plain_tokens_from(s, i + 1, acc.push(seq![c]))
        } else if c == 'x' {
            plain_tokens_from(s, i + 1, acc.push(seq!['*']))
        } else {
            plain_tokens_from(s, i + 1, acc)
        }
    }
}

#[via_fn]
proof fn plain_tokens_from_decreases(s: Seq<char>, i: int, acc: Seq<Seq<char>>) {
    if 0 <= i < s.len() {
        crate::tokenize::lemma_run_len_bound(s, i + 1, s[i] == '.');
    }
}

/// Splits `phrase` in the plain notation, where `x` means `*`: numbers (digits with at
/// most one `.`) and the operators `+ - * / ^`; every other character is dropped.
pub fn tokenize(phrase: &str) -> (tokens: Vec<&str>)
    ensures
        texts(tokens@) == plain_tokens_from(phrase@, 0, seq![]),
{
    let chars = chars_of(phrase);
    let n = chars.len();
    let mut tokens: Vec<&str> = Vec::new();
    let mut i: usize = 0;
    proof {
        reveal_strlit("*");
        assert(texts(tokens@) =~= seq![]);
    }
    while i < n
        invariant
            chars@ == phrase@,
            n == chars@.len(),
            i <= n,
            plain_tokens_from(phrase@, i as int, texts(tokens@)) == plain_tokens_from(phrase@, 0, seq![]),
            "*"@ == seq!['*'],
        decreases n - i,
    {
        let c = chars[i];
        let ghost acc = texts(tokens@);
        if is_ascii_whitespace(c) {
            i += 1;
        } else if is_ascii_digit(c) || c == '.' {
            let start = i;
            let mut saw_dot = c == '.';
            i += 1;
            proof { crate::tokenize::lemma_run_len_bound(phrase@, i as int, saw_dot); }
            while i < n
                invariant
                    chars@ == phrase@,
                    n == chars@.len(),
                    start < i <= n,
                    start + 1 + run_len(phrase@, start + 1, phrase@[start as int] == '.')
                        == i + run_len(phrase@, i as int, saw_dot),
                    i + run_len(phrase@, i as int, saw_dot) <= n,
                ensures
                    start < i <= n,
                    start + 1 + run_len(phrase@, start + 1, phrase@[start as int] == '.') == i,
                decreases n - i,
            {
                let d = chars[i];
                if is_ascii_digit(d) {
                    i += 1;
                } else if d == '.' && !saw_dot {
                    saw_dot = true;
                    i += 1;
                } else {
                    break;
                }
                proof { crate::tokenize::lemma_run_len_bound(phrase@, i as int, saw_dot); }
            }
            tokens.push(phrase.substring_char(start, i));
            assert(texts(tokens@) =~= acc.push(phrase@.subrange(start as int, i as int)));
        } else if c == '+' || c == '-' || c == '*' || c == '/' || c == '^' {
            tokens.push(phrase.substring_char(i, i + 1));
            assert(phrase@.subrange(i as int, i + 1) =~= seq![c]);
            assert(texts(tokens@) =~= acc.push(seq![c]));
            i += 1;
        } else if c == 'x' {
            tokens.push("*");
            assert(texts(tokens@) =~= acc.push(seq!['*']));
            i += 1;
        } else {
            i += 1;
        }
    }
    tokens
}

/// The operator stack machine's state: operands and pending operators.
pub struct Stacks {
    pub values: Seq<Term>,
    pub ops: Seq<Seq<char>>,
}

/// The binding tier of a token: 3 for `^`, 2 for `*` and `/`, 1 for `+` and `-`, 0 for
/// any other token.
pub open spec fn tier_of(t: Seq<char>) -> int {
    if t == seq!['^'] {
        3
    } else if t == seq!['*'] || t == seq!['/'] {
        2
    } else if t == seq!['+'] || t == seq!['-'] {
        1
    } else {
        0
    }
}

pub open spec fn op_of(t: Seq<char>) -> BinOp {
    if t == seq!['+'] {
        BinOp::Add
    } else if t == seq!['-'] {
        BinOp::Sub
    } else if t == seq!['*'] {
        BinOp::Mul
    } else if t == seq!['/'] {
        BinOp::Div
    } else {
        BinOp::Pow
    }
}

/// Applies the top operator to the top two operands.
pub open spec fn apply_top(s: Stacks) -> Result<Stacks, Seq<char>> {
    let n = s.values.len();
    if n < 2 {
        Err("Missing operand"@)
    } else if tier_of(s.ops.last()) == 0 {
        Err("Missing operator"@)
    } else {
        let x = Term::Bin(op_of(s.ops.last()), Box::new(s.values[n - 2]), Box::new(s.values[n - 1]));
        Ok(Stacks { values: s.values.subrange(0, n - 2).push(x), ops: s.ops.drop_last() })
    }
}

/// Applies operators from the top while their tier is at least `tier`.
pub open spec fn reduce(s: Stacks, tier: int) -> Result<Stacks, Seq<char>>
    decreases s.ops.len(),
{
    if s.ops.len() > 0 && tier_of(s.ops.last()) >= tier {
        match apply_top(s) {
            Err(e) => Err(e),
            Ok(s2) => reduce(s2, tier),
        }
    } else {
        Ok(s)
    }
}

/// The stacks after the tokens of `t` from `i` on.
pub open spec fn shunted(t: Seq<Seq<char>>, i: int, s: Stacks) -> Result<Stacks, Seq<char>>
    decreases t.len() - i,
{
    if i < 0 || i >= t.len() {
        Ok(s)
    } else if number_literal(t[i]) {
        shunted(t, i + 1, Stacks { values: s.values.push(Term::Num(t[i])), ..s })
    } else {
        let s1 = if t[i] == seq!['-'] && (i == 0 || tier_of(t[i - 1]) > 0) {
            Stacks { values: s.values.push(Term::Num(seq!['0'])), ..s }
        } else {
            s
        };
        match reduce(s1, tier_of(t[i])) {
            Err(e) => Err(e),
            Ok(s2) => shunted(t, i + 1, Stacks { ops: s2.ops.push(t[i]), ..s2 }),
        }
    }
}

/// What the plain notation's tokens `t` compute: the last operand once every operator
/// has been applied, or what went wrong.
pub open spec fn plain_value(t: Seq<Seq<char>>) -> Result<Term, Seq<char>> {
    match shunted(t, 0, Stacks { values: seq![], ops: seq![] }) {
        Err(e) => Err(e),
        Ok(s) => match reduce(s, 0) {
            Err(e) => Err(e),
            Ok(s2) => if s2.values.len() == 0 {
                Err("Expression could not be parsed"@)
            } else {
                Ok(s2.values.last())
            },
        },
    }
}

pub open spec fn terms(v: Seq<Expr>) -> Seq<Term> {
    v.map_values(|e: Expr| e@)
}

fn tier(tok: &str) -> (r: u8)
    ensures
        r as int == tier_of(tok@),
{
    if is_char_token(tok, '^') {
        3
    } else if is_char_token(tok, '*') || is_char_token(tok, '/') {
        2
    } else if is_char_token(tok, '+') || is_char_token(tok, '-') {
        1
    } else {
        0
    }
}

fn apply_top_operator(values: &mut Vec<Expr>, ops: &mut Vec<&str>) -> (r: Result<(), String>)
    requires
        old(ops)@.len() > 0,
    ensures
        match apply_top(Stacks { values: terms(old(values)@), ops: texts(old(ops)@) }) {
            Ok(s) => r is Ok && terms(final(values)@) == s.values && texts(final(ops)@) == s.ops,
            Err(e) => r matches Err(m) && m@ == e,
        },
{
    let ghost vs = terms(values@);
    let ghost os = texts(ops@);
    let b = values.pop();
    let a = values.pop();
    let op = ops.pop();
    match (a, b, op) {
        (Some(a), Some(b), Some(op)) => {
            let k = tier(op);
            proof {
                assert(vs[vs.len() - 2] == a@ && vs[vs.len() - 1] == b@);
                assert(os.last() == op@);
            }
            if k == 0 {
                return Err(String::from_str("Missing operator"));
            }
            let o = if is_char_token(op, '+') {
                BinOp::Add
            } else if is_char_token(op, '-') {
                BinOp::Sub
            } else if is_char_token(op, '*') {
                BinOp::Mul
            } else if is_char_token(op, '/') {
                BinOp::Div
            } else {
                BinOp::Pow
            };
            let ghost kept = terms(values@);
            values.push(Expr::Binary(o, Box::new(a), Box::new(b)));
            proof {
                assert(kept =~= vs.subrange(0, vs.len() - 2));
                assert(terms(values@) =~= kept.push(Term::Bin(o, Box::new(a@), Box::new(b@))));
                assert(texts(ops@) =~= os.drop_last());
            }
            Ok(())
        },
        _ => Err(String::from_str("Missing operand")),
    }
}

/// Reads tokens of the plain notation with an operator stack: `^` above `*` and `/` above
/// `+` and `-`, each from the left; a `-` first or after an operator takes `0` as its
/// left operand. The last operand left is the result.
pub fn calculate(tokens: Vec<&str>) -> (r: Result<Expr, String>)
    ensures
        match plain_value(texts(tokens@)) {
            Ok(x) => r matches Ok(e) && e@ == x,
            Err(m) => r matches Err(e) && e@ == m,
        },
{
    let ghost t = texts(tokens@);
    let mut values: Vec<Expr> = Vec::new();
    let mut ops: Vec<&str> = Vec::new();
    let mut i: usize = 0;
    proof {
        assert(terms(values@) =~= seq![]);
        assert(texts(ops@) =~= seq![]);
        reveal_strlit("0");
    }
    while i < tokens.len()
        invariant
            t == texts(tokens@),
            i <= tokens@.len(),
            "0"@ == seq!['0'],
            shunted(t, 0, Stacks { values: seq![], ops: seq![] })
                == shunted(t, i as int, Stacks { values: terms(values@), ops: texts(ops@) }),
        decreases tokens@.len() - i,
    {
        let tok = tokens[i];
        assert(t[i as int] == tok@);
        if is_number_literal(tok) {
            let ghost before = terms(values@);
            values.push(Expr::Number(String::from_str(tok)));
            assert(terms(values@) =~= before.push(Term::Num(tok@)));
        } else {
            if is_char_token(tok, '-') && (i == 0 || tier(tokens[i - 1]) > 0) {
                let ghost before = terms(values@);
                values.push(Expr::Number(String::from_str("0")));
                assert(terms(values@) =~= before.push(Term::Num(seq!['0'])));
            }
            proof {
                if i > 0 {
                    assert(t[i - 1] == tokens@[i - 1]@);
                }
            }
            let k = tier(tok);
            loop
                invariant
                    t == texts(tokens@),
                    i < tokens@.len(),
                    t[i as int] == tok@,
                    k as int == tier_of(tok@),
                    shunted(t, 0, Stacks { values: seq![], ops: seq![] })
                        == match reduce(Stacks { values: terms(values@), ops: texts(ops@) }, k as int) {
                            Err(e) => Err(e),
                            Ok(s2) => shunted(t, i + 1, Stacks { ops: s2.ops.push(t[i as int]), ..s2 }),
                        },
                ensures
                    shunted(t, 0, Stacks { values: seq![], ops: seq![] })
                        == shunted(t, i + 1, Stacks { values: terms(values@), ops: texts(ops@).push(t[i as int]) }),
                decreases ops@.len(),
            {
                if ops.len() == 0 || tier(ops[ops.len() - 1]) < k {
                    proof {
                        if ops.len() > 0 {
                            assert(texts(ops@).last() == ops@[ops@.len() - 1]@);
                        }
                    }
                    break;
                }
                assert(texts(ops@).last() == ops@[ops@.len() - 1]@);
                match apply_top_operator(&mut values, &mut ops) {
                    Ok(()) => {},
                    Err(e) => return Err(e),
                }
            }
            let ghost before = texts(ops@);
            ops.push(tok);
            assert(texts(ops@) =~= before.push(tok@));
        }
        i += 1;
    }
    loop
        invariant
            t == texts(tokens@),
            plain_value(t) == match reduce(Stacks { values: terms(values@), ops: texts(ops@) }, 0) {
                Err(e) => Err(e),
                Ok(s2) => if s2.values.len() == 0 {
                    Err("Expression could not be parsed"@)
                } else {
                    Ok(s2.values.last())
                },
            },
        ensures
            plain_value(t) == if values@.len() == 0 {
                Err("Expression could not be parsed"@)
            } else {
                Ok(terms(values@).last())
            },
        decreases ops@.len(),
    {
        if ops.len() == 0 {
            break;
        }
        let ghost st = Stacks { values: terms(values@), ops: texts(ops@) };
        assert(st.ops.len() > 0 && tier_of(st.ops.last()) >= 0);
        assert(reduce(st, 0) == match apply_top(st) {
            Err(e) => Err(e),
            Ok(s2) => reduce(s2, 0),
        });
        match apply_top_operator(&mut values, &mut ops) {
            Ok(()) => {},
            Err(e) => return Err(e),
        }
    }
    match values.pop() {
        Some(v) => Ok(v),
        None => Err(String::from_str("Expression could not be parsed")),
    }
}

} // verus!
