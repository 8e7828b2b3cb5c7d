//! Finding the identifiers of an expression that no variable is bound to.
use vstd::prelude::*;

use crate::chars::same_text;
use crate::error::string_texts;
use crate::number::{is_number_literal, number_literal};
use crate::tokenize::texts;
use crate::variables::Variables;

verus! {

/// An operator or a structural token: `+ - * / ^ ( ) =`.
pub open spec fn symbol_token(t: Seq<char>) -> bool {
    t.len() == 1 && crate::chars::symbol(t[0])
}

/// A token that is a number literal, a symbol, or a bound name.
pub open spec fn known(t: Seq<char>, names: Set<Seq<char>>) -> bool {
    number_literal(t) || symbol_token(t) || names.contains(t)
}

/// The tokens of `t` that are not known, once each, in order of first occurrence.
pub open spec fn unknowns(t: Seq<Seq<char>>, names: Set<Seq<char>>) -> Seq<Seq<char>>
    decreases t.len(),
{
    if t.len() == 0 {
        seq![]
    } else {
        let prev = unknowns(t.drop_last(), names);
        let x = t.last();
        if !known(x, names) && !prev.contains(x) {
            prev.push(x)
        } else {
            prev
        }
    }
}

fn is_symbol_token(tok: &str) -> (r: bool)
    ensures
        r == symbol_token(tok@),
{
    tok.unicode_len() == 1 && crate::chars::is_symbol(tok.get_char(0))
}

fn contains_text(v: &Vec<String>, tok: &str) -> (r: bool)
    ensures
        r == string_texts(v@).contains(tok@),
{
    let mut i: usize = 0;
    while i < v.len()
        invariant
            i <= v@.len(),
            forall|k: int| 0 <= k < i ==> #[trigger] v@[k]@ != tok@,
        decreases v@.len() - i,
    {
        if same_text(v[i].as_str(), tok) {
            assert(string_texts(v@)[i as int] == tok@);
            return true;
        }
        i += 1;
    }
    proof {
        if string_texts(v@).contains(tok@) {
            let k = choose|k: int| 0 <= k < v@.len() && string_texts(v@)[k] == tok@;
            assert(v@[k]@ == tok@);
        }
    }
    false
}

/// The tokens that are neither number literals, symbols, nor names of `variables`, once
/// each, in order of first occurrence.
pub fn inspect_unknown_variables<V>(tokens: &Vec<&str>, variables: &Variables<V>) -> (r: Vec<String>)
    requires
        variables.wf(),
    ensures
        string_texts(r@) == unknowns(texts(tokens@), variables@.dom()),
{
    let ghost t = texts(tokens@);
    let ghost names = variables@.dom();
    let mut unknown_variables: Vec<String> = Vec::new();
    let mut i: usize = 0;
    while i < tokens.len()
        invariant
            t == texts(tokens@),
            names == variables@.dom(),
            variables.wf(),
            i <= tokens@.len(),
            string_texts(unknown_variables@) == unknowns(t.subrange(0, i as int), names),
        decreases tokens@.len() - i,
    {
        let tok = tokens[i];
        let ghost prefix = t.subrange(0, i + 1);
        assert(prefix.drop_last() =~= t.subrange(0, i as int));
        assert(prefix.last() == tok@);
        let ghost before = string_texts(unknown_variables@);
        if !is_number_literal(tok) && !is_symbol_token(tok) && !variables.contains(tok)
            && !contains_text(&unknown_variables, tok) {
            unknown_variables.push(String::from_str(tok));
            assert(string_texts(unknown_variables@) =~= before.push(tok@));
        }
        i += 1;
    }
    assert(t.subrange(0, t.len() as int) =~= t);
    unknown_variables
}

} // verus!
