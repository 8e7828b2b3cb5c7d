//! The variable environment, and splitting an assignment `name = expr`.
use vstd::prelude::*;

use crate::chars::{is_char_token, same_text};
use crate::error::{Fault, ParseError};
use crate::tokenize::texts;

verus! {

/// A bound variable: the line that defined it and the value it computed to.
pub struct VariableEntry<V> {
    pub expression: String,
    pub value: V,
}

/// Variables by name. Each name is bound at most once; binding it again replaces the entry.
pub struct Variables<V> {
    entries: Vec<(String, VariableEntry<V>)>,
    model: Ghost<Map<Seq<char>, (Seq<char>, V)>>,
}

impl<V> View for Variables<V> {
    type V = Map<Seq<char>, (Seq<char>, V)>;

    closed spec fn view(&self) -> Map<Seq<char>, (Seq<char>, V)> {
        self.model@
    }
}

impl<V> Variables<V> {
    /// The entries agree with the model, names are unique.
    pub closed spec fn wf(&self) -> bool {
        &&& forall|i: int| 0 <= i < self.entries@.len() ==> {
            let (n, e) = #[trigger] self.entries@[i];
            &&& self.model@.contains_key(n@)
            &&& self.model@[n@] == (e.expression@, e.value)
        }
        &&& forall|i: int, j: int| 0 <= i < self.entries@.len() && 0 <= j < self.entries@.len()
            && #[trigger] self.entries@[i].0@ == #[trigger] self.entries@[j].0@ ==> i == j
        &&& forall|k: Seq<char>| #[trigger] self.model@.contains_key(k) ==> exists|i: int|
            0 <= i < self.entries@.len() && #[trigger] self.entries@[i].0@ == k
    }

    /// The empty environment.
    pub fn new() -> (r: Self)
        ensures
            r.wf(),
            r@ == Map::<Seq<char>, (Seq<char>, V)>::empty(),
    {
        Variables { entries: Vec::new(), model: Ghost(Map::empty()) }
    }

    /// How many names are bound.
    pub fn len(&self) -> (r: usize)
        requires
            self.wf(),
        ensures
            r == self@.len(),
    {
        proof {
            self.lemma_len();
        }
        self.entries.len()
    }

    proof fn lemma_len(&self)
        requires
            self.wf(),
        ensures
            self.entries@.len() == self@.len(),
            self@.dom().finite(),
    {
        let names = Seq::new(self.entries@.len(), |i: int| self.entries@[i].0@);
        assert(names.to_set() =~= self@.dom()) by {
            assert forall|k: Seq<char>| self@.dom().contains(k) implies names.to_set().contains(k) by {
                let i = choose|i: int| 0 <= i < self.entries@.len() && #[trigger] self.entries@[i].0@ == k;
                assert(names[i] == k);
            }
        }
        assert(names.no_duplicates());
        names.unique_seq_to_set();
    }

    fn find(&self, name: &str) -> (r: Option<usize>)
        requires
            self.wf(),
        ensures
            match r {
                Some(i) => i < self.entries@.len() && self.entries@[i as int].0@ == name@,
                None => !self@.contains_key(name@),
            },
    {
        let mut i: usize = 0;
        while i < self.entries.len()
            invariant
                self.wf(),
                i <= self.entries@.len(),
                forall|j: int| 0 <= j < i ==> #[trigger] self.entries@[j].0@ != name@,
            decreases self.entries@.len() - i,
        {
            if same_text(self.entries[i].0.as_str(), name) {
                return Some(i);
            }
            i += 1;
        }
        None
    }

    /// Whether `name` is bound.
    pub fn contains(&self, name: &str) -> (r: bool)
        requires
            self.wf(),
        ensures
            r == self@.contains_key(name@),
    {
        self.find(name).is_some()
    }

    /// The entry bound to `name`, if any.
    pub fn get(&self, name: &str) -> (r: Option<&VariableEntry<V>>)
        requires
            self.wf(),
        ensures
            r.is_some() == self@.contains_key(name@),
            r matches Some(e) ==> self@[name@] == (e.expression@, e.value),
    {
        match self.find(name) {
            Some(i) => Some(&self.entries[i].1),
            None => None,
        }
    }

    /// Binds `name` to `entry`, replacing what it was bound to.
    pub fn insert(&mut self, name: String, entry: VariableEntry<V>)
        requires
            old(self).wf(),
        ensures
            final(self).wf(),
            final(self)@ == old(self)@.insert(name@, (entry.expression@, entry.value)),
    {
        let ghost m = self@.insert(name@, (entry.expression@, entry.value));
        match self.find(name.as_str()) {
            Some(i) => {
                self.entries.set(i, (name, entry));
                self.model = Ghost(m);
                assert forall|k: Seq<char>| #[trigger] self.model@.contains_key(k) implies exists|j: int|
                    0 <= j < self.entries@.len() && #[trigger] self.entries@[j].0@ == k by {
                    if k != self.entries@[i as int].0@ {
                        let j = choose|j: int| 0 <= j < old(self).entries@.len() && #[trigger] old(self).entries@[j].0@ == k;
                        assert(self.entries@[j] == old(self).entries@[j]);
                    }
                }
            },
            None => {
                self.entries.push((name, entry));
                self.model = Ghost(m);
                assert forall|k: Seq<char>| #[trigger] self.model@.contains_key(k) implies exists|j: int|
                    0 <= j < self.entries@.len() && #[trigger] self.entries@[j].0@ == k by {
                    if k != self.entries@.last().0@ {
                        let j = choose|j: int| 0 <= j < old(self).entries@.len() && #[trigger] old(self).entries@[j].0@ == k;
                        assert(self.entries@[j] == old(self).entries@[j]);
                    } else {
                        assert(self.entries@[self.entries@.len() - 1].0@ == k);
                    }
                }
            },
        }
    }

    /// The bound names, each once.
    pub fn names(&self) -> (r: Vec<String>)
        requires
            self.wf(),
        ensures
            r@.len() == self@.len(),
            forall|i: int| 0 <= i < r@.len() ==> self@.contains_key(#[trigger] r@[i]@),
            forall|k: Seq<char>| #[trigger] self@.contains_key(k) ==> exists|i: int| 0 <= i < r@.len() && #[trigger] r@[i]@ == k,
            forall|i: int, j: int| 0 <= i < r@.len() && 0 <= j < r@.len() && #[trigger] r@[i]@ == #[trigger] r@[j]@ ==> i == j,
    {
        proof {
            self.lemma_len();
        }
        let mut r: Vec<String> = Vec::new();
        let mut i: usize = 0;
        while i < self.entries.len()
            invariant
                self.wf(),
                i <= self.entries@.len(),
                r@.len() == i,
                forall|j: int| 0 <= j < i ==> #[trigger] r@[j]@ == self.entries@[j].0@,
            decreases self.entries@.len() - i,
        {
            r.push(self.entries[i].0.clone());
            i += 1;
        }
        proof {
            assert forall|k: Seq<char>| #[trigger] self@.contains_key(k) implies exists|i: int| 0 <= i < r@.len() && #[trigger] r@[i]@ == k by {
                let j = choose|j: int| 0 <= j < self.entries@.len() && #[trigger] self.entries@[j].0@ == k;
                assert(r@[j]@ == k);
            }
        }
        r
    }
}

/// The position of the first `=` token at or after `k`, or the length.
pub open spec fn first_assign(t: Seq<Seq<char>>, k: int) -> int
    decreases t.len() - k,
{
    if k < 0 || k >= t.len() {
        t.len() as int
    } else if t[k] == seq!['='] {
        k
    } else {
        first_assign(t, k + 1)
    }
}

/// What splitting the tokens `t` of an assignment gives: the name before the first `=`
/// and the tokens after it.
pub open spec fn split_assignment(t: Seq<Seq<char>>) -> Result<(Seq<char>, Seq<Seq<char>>), Fault> {
    let k = first_assign(t, 0);
    if k == t.len() {
        Err(Fault::AssignmentMissing)
    } else if k == 0 {
        Err(Fault::AssignmentMissingName)
    } else {
        Ok((t[k - 1], t.subrange(k + 1, t.len() as int)))
    }
}

proof fn lemma_first_assign(t: Seq<Seq<char>>, k: int)
    requires
        0 <= k <= t.len(),
    ensures
        k <= first_assign(t, k) <= t.len(),
        first_assign(t, k) < t.len() ==> t[first_assign(t, k)] == seq!['='],
        forall|m: int| k <= m < first_assign(t, k) ==> t[m] != seq!['='],
    decreases t.len() - k,
{
    if k < t.len() && t[k] != seq!['='] {
        lemma_first_assign(t, k + 1);
    }
}

/// The two sides of an assignment.
#[derive(Debug)]
pub struct VariableParseReturn<'a> {
    pub var_name: String,
    pub tokens: Vec<&'a str>,
}

/// Splits the tokens of `name = expr` at the first `=`: the token before it is the name,
/// the tokens after it are the expression.
pub fn parse_variables<'a>(tokens: Vec<&'a str>) -> (r: Result<VariableParseReturn<'a>, ParseError>)
    ensures
        match (r, split_assignment(texts(tokens@))) {
            (Ok(v), Ok((name, rest))) => v.var_name@ == name && texts(v.tokens@) == rest,
            (Err(e), Err(f)) => e@ == f,
            _ => false,
        },
{
    let ghost t = texts(tokens@);
    proof {
        lemma_first_assign(t, 0);
    }
    let mut k: usize = 0;
    while k < tokens.len()
        invariant
            t == texts(tokens@),
            k <= tokens@.len(),
            forall|m: int| 0 <= m < k ==> t[m] != seq!['='],
            k <= first_assign(t, 0),
            first_assign(t, 0) <= t.len(),
            first_assign(t, 0) < t.len() ==> t[first_assign(t, 0)] == seq!['='],
            forall|m: int| 0 <= m < first_assign(t, 0) ==> t[m] != seq!['='],
        ensures
            k == first_assign(t, 0),
        decreases tokens@.len() - k,
    {
        assert(t[k as int] == tokens@[k as int]@);
        if is_char_token(tokens[k], '=') {
            break;
        }
        k += 1;
    }
    if k == tokens.len() {
        return Err(ParseError::AssignmentMissing);
    }
    if k == 0 {
        return Err(ParseError::AssignmentMissingName);
    }
    let var_name = String::from_str(tokens[k - 1]);
    assert(t[k - 1] == tokens@[k - 1]@);
    let mut rest: Vec<&'a str> = Vec::new();
    let mut j = k + 1;
    while j < tokens.len()
        invariant
            t == texts(tokens@),
            k < tokens@.len(),
            k < j <= tokens@.len(),
            texts(rest@) == t.subrange(k + 1, j as int),
        decreases tokens@.len() - j,
    {
        let ghost before = texts(rest@);
        rest.push(tokens[j]);
        proof {
            assert(t[j as int] == tokens@[j as int]@);
            assert(texts(rest@) =~= before.push(t[j as int]));
            assert(texts(rest@) =~= t.subrange(k + 1, j + 1));
        }
        j += 1;
    }
    assert(texts(rest@) =~= t.subrange(k + 1, t.len() as int));
    Ok(VariableParseReturn { var_name, tokens: rest })
}

/// A split that succeeds found an `=`.
pub proof fn lemma_split_has_assign(t: Seq<Seq<char>>)
    requires
        split_assignment(t) is Ok,
    ensures
        t.contains(seq!['=']),
{
    lemma_first_assign(t, 0);
    let k = first_assign(t, 0);
    assert(t[k] == seq!['=']);
}

} // verus!
