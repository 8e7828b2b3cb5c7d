//! Which token texts read as a number literal.
//!
//! A literal is what `f64`'s `FromStr` accepts: an optional sign, then `inf`, `infinity`
//! or `nan` in any case, or digits with at most one `.` (at least one digit) followed by
//! an optional exponent `e`/`E`, optional sign, digits.
use vstd::prelude::*;

use crate::chars::{digit, is_ascii_digit, chars_of};
use crate::tokenize::{is_number_run, number_token};

verus! {

/// Whether `t` spells a word given in lower case `lo` and upper case `up`, letter by
/// letter in either case.
pub open spec fn spells(t: Seq<char>, lo: Seq<char>, up: Seq<char>) -> bool {
    t.len() == lo.len() && forall|k: int| 0 <= k < t.len() ==> #[trigger] t[k] == lo[k] || t[k] == up[k]
}

pub open spec fn sign(c: char) -> bool {
    c == '+' || c == '-'
}

/// `t` without one leading sign.
pub open spec fn unsigned(t: Seq<char>) -> Seq<char> {
    if t.len() > 0 && sign(t[0]) {
        t.drop_first()
    } else {
        t
    }
}

/// Position of the first `e` or `E` in `t`, or its length.
pub open spec fn exp_at(t: Seq<char>, k: int) -> int
    decreases t.len() - k,
{
    if k < 0 || k >= t.len() {
        t.len() as int
    } else if t[k] == 'e' || t[k] == 'E' {
        k
    } else {
        exp_at(t, k + 1)
    }
}

/// One or more digits, after an optional sign.
pub open spec fn exponent_digits(t: Seq<char>) -> bool {
    let d = unsigned(t);
    d.len() > 0 && forall|k: int| 0 <= k < d.len() ==> digit(#[trigger] d[k])
}

pub open spec fn decimal(u: Seq<char>) -> bool {
    let k = exp_at(u, 0);
    number_token(u.subrange(0, k)) && (k == u.len() || exponent_digits(u.subrange(k + 1, u.len() as int)))
}

pub open spec fn special(u: Seq<char>) -> bool {
    spells(u, seq!['i', 'n', 'f'], seq!['I', 'N', 'F'])
        || spells(u, seq!['i', 'n', 'f', 'i', 'n', 'i', 't', 'y'], seq!['I', 'N', 'F', 'I', 'N', 'I', 'T', 'Y'])
        || spells(u, seq!['n', 'a', 'n'], seq!['N', 'A', 'N'])
}

/// A number literal.
pub open spec fn number_literal(t: Seq<char>) -> bool {
    special(unsigned(t)) || decimal(unsigned(t))
}

proof fn lemma_exp_at_bounds(t: Seq<char>, k: int)
    requires
        0 <= k <= t.len(),
    ensures
        k <= exp_at(t, k) <= t.len(),
        exp_at(t, k) < t.len() ==> (t[exp_at(t, k)] == 'e' || t[exp_at(t, k)] == 'E'),
        forall|m: int| k <= m < exp_at(t, k) ==> t[m] != 'e' && t[m] != 'E',
    decreases t.len() - k,
{
    if k < t.len() && !(t[k] == 'e' || t[k] == 'E') {
        lemma_exp_at_bounds(t, k + 1);
    }
}

fn spells_word(t: &[char], from: usize, lo: &str, up: &str) -> (r: bool)
    requires
        from <= t@.len(),
        lo@.len() == up@.len(),
    ensures
        r == spells(t@.subrange(from as int, t@.len() as int), lo@, up@),
{
    let n = lo.unicode_len();
    if t.len() - from != n {
        return false;
    }
    let ghost w = t@.subrange(from as int, t@.len() as int);
    let mut k: usize = 0;
    while k < n
        invariant
            n == lo@.len(),
            n == up@.len(),
            w == t@.subrange(from as int, t@.len() as int),
            from + n == t.len(),
            k <= n,
            forall|m: int| 0 <= m < k ==> #[trigger] w[m] == lo@[m] || w[m] == up@[m],
        decreases n - k,
    {
        let c = t[from + k];
        assert(w[k as int] == c);
        if c != lo.get_char(k) && c != up.get_char(k) {
            return false;
        }
        k += 1;
    }
    true
}

fn all_digits(t: &[char], from: usize) -> (r: bool)
    requires
        from <= t@.len(),
    ensures
        r == (forall|k: int| from <= k < t@.len() ==> digit(#[trigger] t@[k])),
{
    let mut k = from;
    while k < t.len()
        invariant
            from <= k <= t@.len(),
            forall|m: int| from <= m < k ==> digit(#[trigger] t@[m]),
        decreases t@.len() - k,
    {
        if !is_ascii_digit(t[k]) {
            return false;
        }
        k += 1;
    }
    true
}

/// Whether `tok` reads as a number literal.
pub fn is_number_literal(tok: &str) -> (r: bool)
    ensures
        r == number_literal(tok@),
{
    let t = chars_of(tok);
    let s: usize = if t.len() > 0 && (t[0] == '+' || t[0] == '-') { 1 } else { 0 };
    let ghost u = unsigned(tok@);
    assert(u =~= t@.subrange(s as int, t@.len() as int));
    proof {
        reveal_strlit("inf");
        reveal_strlit("INF");
        reveal_strlit("infinity");
        reveal_strlit("INFINITY");
        reveal_strlit("nan");
        reveal_strlit("NAN");
    }
    if spells_word(t.as_slice(), s, "inf", "INF") || spells_word(t.as_slice(), s, "infinity", "INFINITY")
        || spells_word(t.as_slice(), s, "nan", "NAN") {
        return true;
    }
    assert(!special(u));
    // the mantissa runs up to the first `e` or `E`
    let mut k = s;
    proof { lemma_exp_at_bounds(u, 0); }
    while k < t.len() && t[k] != 'e' && t[k] != 'E'
        invariant
            s <= k <= t@.len(),
            u =~= t@.subrange(s as int, t@.len() as int),
            k - s <= exp_at(u, 0),
            exp_at(u, 0) <= u.len(),
            exp_at(u, 0) < u.len() ==> (u[exp_at(u, 0)] == 'e' || u[exp_at(u, 0)] == 'E'),
            forall|m: int| 0 <= m < exp_at(u, 0) ==> u[m] != 'e' && u[m] != 'E',
        decreases t@.len() - k,
    {
        k += 1;
    }
    let ghost e = exp_at(u, 0);
    proof {
        if k - s < e {
            assert(u[k - s] == t@[k as int]);
        }
    }
    assert(k - s == e);
    assert(u.subrange(0, e) =~= t@.subrange(s as int, k as int));
    if !is_number_run(&t, s, k) {
        return false;
    }
    if k == t.len() {
        return true;
    }
    let d: usize = if k + 1 < t.len() && (t[k + 1] == '+' || t[k + 1] == '-') { k + 2 } else { k + 1 };
    assert(unsigned(u.subrange(e + 1, u.len() as int)) =~= t@.subrange(d as int, t@.len() as int));
    let ghost x = u.subrange(e + 1, u.len() as int);
    let r = d < t.len() && all_digits(t.as_slice(), d);
    proof {
        let dx = unsigned(x);
        if r {
            assert forall|m: int| 0 <= m < dx.len() implies digit(#[trigger] dx[m]) by {
                assert(dx[m] == t@[d + m]);
            }
        } else if d < t.len() {
            let m = choose|m: int| d <= m < t@.len() && !digit(#[trigger] t@[m]);
            assert(dx[m - d] == t@[m]);
        }
    }
    r
}

} // verus!

verus! {

/// With no `e` or `E` from `k` on, the exponent search ends at the length.
pub proof fn lemma_exp_at_none(t: Seq<char>, k: int)
    requires
        0 <= k <= t.len(),
        forall|m: int| k <= m < t.len() ==> t[m] != 'e' && t[m] != 'E',
    ensures
        exp_at(t, k) == t.len(),
    decreases t.len() - k,
{
    if k < t.len() {
        lemma_exp_at_none(t, k + 1);
    }
}

} // verus!
