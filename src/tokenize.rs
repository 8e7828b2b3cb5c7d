//! Splitting an input line into tokens.
use vstd::prelude::*;

use crate::chars::{alpha, chars_of, digit, is_ascii_alphabetic, is_ascii_digit, is_ascii_whitespace, is_char_token, is_symbol, space, symbol};

verus! {

/// The token `*`.
pub open spec fn star() -> Seq<char> {
    seq!['*']
}

/// A single ASCII letter: a variable name.
pub open spec fn identifier_token(t: Seq<char>) -> bool {
    t.len() == 1 && alpha(t[0])
}

/// Digits with at most one `.`, holding at least one digit.
pub open spec fn number_token(t: Seq<char>) -> bool {
    &&& exists|k: int| 0 <= k < t.len() && digit(#[trigger] t[k])
    &&& forall|k: int| 0 <= k < t.len() ==> digit(#[trigger] t[k]) || t[k] == '.'
    &&& forall|k: int, l: int| 0 <= k < t.len() && 0 <= l < t.len() && #[trigger] t[k] == '.' && #[trigger] t[l] == '.' ==> k == l
}

/// Whether a `*` goes in before a number, after the tokens `acc`.
pub open spec fn mul_before_number(acc: Seq<Seq<char>>) -> bool {
    acc.len() > 0 && (identifier_token(acc.last()) || acc.last() == seq![')'])
}

/// Whether a `*` goes in before a letter or a `(`, after the tokens `acc`.
pub open spec fn mul_before_ident(acc: Seq<Seq<char>>) -> bool {
    acc.len() > 0 && (number_token(acc.last()) || identifier_token(acc.last()) || acc.last() == seq![')'])
}

/// How many characters from `j` on still extend a number run (digits, and one `.` if
/// none was seen yet).
pub open spec fn run_len(s: Seq<char>, j: int, saw_dot: bool) -> nat
    decreases s.len() - j,
{
    if j < 0 || j >= s.len() {
        0
    } else if digit(s[j]) {
        1 + run_len(s, j + 1, saw_dot)
    } else if s[j] == '.' && !saw_dot {
        1 + run_len(s, j + 1, true)
    } else {
        0
    }
}

/// The tokens of `s` from position `i` on, appended to the tokens `acc` already emitted.
pub open spec fn tokens_from(s: Seq<char>, i: int, acc: Seq<Seq<char>>) -> Seq<Seq<char>>
    decreases s.len() - i
    via tokens_from_decreases
{
    if i < 0 || i >= s.len() {
        acc
    } else {
        let c = s[i];
        if space(c) {
            tokens_from(s, i + 1, acc)
        } else if digit(c) || c == '.' {
            let j = i + 1 + run_len(s, i + 1, c == '.');
            let acc1 = if mul_before_number(acc) { acc.push(star()) } else { acc };
            tokens_from(s, j, acc1.push(s.subrange(i, j)))
        } else if alpha(c) {
            let acc1 = if mul_before_ident(acc) { acc.push(star()) } else { acc };
            tokens_from(s, i + 1, acc1.push(seq![c]))
        } else if c == '(' {
            let acc1 = if mul_before_ident(acc) { acc.push(star()) } else { acc };
            tokens_from(s, i + 1, acc1.push(seq![c]))
        } else if symbol(c) {
            tokens_from(s, i + 1, acc.push(seq![c]))
        } else {
            tokens_from(s, i + 1, acc)
        }
    }
}

/// The tokens of a whole line.
pub open spec fn tokens_of(s: Seq<char>) -> Seq<Seq<char>> {
    tokens_from(s, 0, seq![])
}

/// The contents of a sequence of string slices.
pub open spec fn texts(v: Seq<&str>) -> Seq<Seq<char>> {
    v.map_values(|t: &str| t@)
}

#[via_fn]
proof fn tokens_from_decreases(s: Seq<char>, i: int, acc: Seq<Seq<char>>) {
    if 0 <= i < s.len() {
        lemma_run_len_bound(s, i + 1, s[i] == '.');
    }
}

pub(crate) proof fn lemma_run_len_bound(s: Seq<char>, j: int, saw_dot: bool)
    requires
        0 <= j <= s.len(),
    ensures
        j + run_len(s, j, saw_dot) <= s.len(),
    decreases s.len() - j,
{
    if j < s.len() {
        lemma_run_len_bound(s, j + 1, saw_dot);
        lemma_run_len_bound(s, j + 1, true);
    }
}

/// Splits `phrase` into number, operator, parenthesis, `=` and single-letter tokens,
/// with a `*` between adjacent operands (`7x`, `ab`, `3(`, `)(`, `)2`); other characters
/// are dropped.
pub fn tokenize<'a>(phrase: &'a str) -> (tokens: Vec<&'a str>)
    ensures
        texts(tokens@) == tokens_of(phrase@),
{
    let chars = chars_of(phrase);
    let n = chars.len();
    let mut tokens: Vec<&'a str> = Vec::new();
    let mut i: usize = 0;
    proof {
        reveal_strlit("*");
        assert(texts(tokens@) =~= seq![]);
    }
    while i < n
        invariant
            chars@ == phrase@,
            n == chars@.len(),
            i <= n,
            tokens_from(phrase@, i as int, texts(tokens@)) == tokens_of(phrase@),
            "*"@ == star(),
        decreases n - i,
    {
        let c = chars[i];
        if is_ascii_whitespace(c) {
            i += 1;
        } else if is_ascii_digit(c) || c == '.' {
            let ghost acc = texts(tokens@);
            let start = i;
            let mut saw_dot = c == '.';
            i += 1;
            proof { lemma_run_len_bound(phrase@, i as int, saw_dot); }
            while i < n
                invariant
                    chars@ == phrase@,
                    n == chars@.len(),
                    start < i <= n,
                    start + 1 + run_len(phrase@, start + 1, phrase@[start as int] == '.')
                        == i + run_len(phrase@, i as int, saw_dot),
                    i + run_len(phrase@, i as int, saw_dot) <= n,
                ensures
                    start < i <= n,
                    start + 1 + run_len(phrase@, start + 1, phrase@[start as int] == '.') == i,
                decreases n - i,
            {
                let d = chars[i];
                if is_ascii_digit(d) {
                    i += 1;
                } else if d == '.' && !saw_dot {
                    saw_dot = true;
                    i += 1;
                } else {
                    break;
                }
                proof { lemma_run_len_bound(phrase@, i as int, saw_dot); }
            }
            if needs_implicit_mul_before_number(&tokens) {
                tokens.push("*");
            }
            tokens.push(phrase.substring_char(start, i));
            proof {
                let acc1 = if mul_before_number(acc) { acc.push(star()) } else { acc };
                assert(texts(tokens@) =~= acc1.push(phrase@.subrange(start as int, i as int)));
            }
        } else if is_ascii_alphabetic(c) {
            let ghost acc = texts(tokens@);
            if needs_implicit_mul_before_ident(&tokens) {
                tokens.push("*");
            }
            tokens.push(phrase.substring_char(i, i + 1));
            proof {
                let acc1 = if mul_before_ident(acc) { acc.push(star()) } else { acc };
                assert(phrase@.subrange(i as int, i + 1) =~= seq![c]);
                assert(texts(tokens@) =~= acc1.push(seq![c]));
            }
            i += 1;
        } else if c == '(' {
            let ghost acc = texts(tokens@);
            if needs_implicit_mul_before_ident(&tokens) {
                tokens.push("*");
            }
            tokens.push(phrase.substring_char(i, i + 1));
            proof {
                let acc1 = if mul_before_ident(acc) { acc.push(star()) } else { acc };
                assert(phrase@.subrange(i as int, i + 1) =~= seq![c]);
                assert(texts(tokens@) =~= acc1.push(seq![c]));
            }
            i += 1;
        } else if is_symbol(c) {
            let ghost acc = texts(tokens@);
            tokens.push(phrase.substring_char(i, i + 1));
            proof {
                assert(phrase@.subrange(i as int, i + 1) =~= seq![c]);
                assert(texts(tokens@) =~= acc.push(seq![c]));
            }
            i += 1;
        } else {
            i += 1;
        }
    }
    tokens
}

fn needs_implicit_mul_before_ident(tokens: &Vec<&str>) -> (r: bool)
    ensures
        r == mul_before_ident(texts(tokens@)),
{
    if tokens.len() == 0 {
        return false;
    }
    let tok = tokens[tokens.len() - 1];
    is_number_token(tok) || is_identifier_token(tok) || is_char_token(tok, ')')
}

fn needs_implicit_mul_before_number(tokens: &Vec<&str>) -> (r: bool)
    ensures
        r == mul_before_number(texts(tokens@)),
{
    if tokens.len() == 0 {
        return false;
    }
    let tok = tokens[tokens.len() - 1];
    is_identifier_token(tok) || is_char_token(tok, ')')
}

pub fn is_identifier_token(tok: &str) -> (r: bool)
    ensures
        r == identifier_token(tok@),
{
    tok.unicode_len() == 1 && is_ascii_alphabetic(tok.get_char(0))
}

pub fn is_number_token(tok: &str) -> (r: bool)
    ensures
        r == number_token(tok@),
{
    let t = chars_of(tok);
    assert(t@.subrange(0, t@.len() as int) =~= tok@);
    is_number_run(&t, 0, t.len())
}

/// Whether the characters `t[from..to]` form a number token.
pub(crate) fn is_number_run(t: &Vec<char>, from: usize, to: usize) -> (r: bool)
    requires
        from <= to <= t@.len(),
    ensures
        r == number_token(t@.subrange(from as int, to as int)),
{
    let ghost w = t@.subrange(from as int, to as int);
    let mut saw_digit = false;
    let mut saw_dot = false;
    let mut dot_at: usize = 0;
    let mut i: usize = from;
    while i < to
        invariant
            from <= i <= to <= t@.len(),
            w == t@.subrange(from as int, to as int),
            saw_digit == exists|k: int| 0 <= k < i - from && digit(#[trigger] w[k]),
            forall|k: int| 0 <= k < i - from ==> digit(#[trigger] w[k]) || w[k] == '.',
            saw_dot ==> dot_at < i - from && w[dot_at as int] == '.',
            forall|k: int| 0 <= k < i - from && #[trigger] w[k] == '.' ==> saw_dot && k == dot_at,
        decreases to - i,
    {
        let c = t[i];
        assert(w[i - from] == c);
        if is_ascii_digit(c) {
            saw_digit = true;
        } else if c == '.' && !saw_dot {
            saw_dot = true;
            dot_at = i - from;
        } else {
            proof {
                let k = (i - from) as int;
                if c == '.' {
                    assert(w[dot_at as int] == '.' && w[k] == '.');
                    assert(!(forall|k: int, l: int| 0 <= k < w.len() && 0 <= l < w.len() && #[trigger] w[k] == '.' && #[trigger] w[l] == '.' ==> k == l));
                } else {
                    assert(!(digit(w[k]) || w[k] == '.'));
                }
            }
            return false;
        }
        i += 1;
    }
    saw_digit
}

} // verus!
