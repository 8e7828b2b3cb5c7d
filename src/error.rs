//! What can go wrong when an input line is read and parsed.
use vstd::prelude::*;

verus! {

/// An error of the parser or of the assignment splitter.
#[derive(Debug, PartialEq)]
pub enum ParseError {
    /// No tokens where an operand was needed.
    EmptyExpression,
    /// An identifier that no variable is bound to.
    UnknownVariable(String),
    /// A token where none was expected (a trailing token, a stray `)`).
    UnexpectedToken(String),
    /// A `(` without its `)`.
    UnmatchedParen,
    /// Assignment was asked for, but there is no `=`.
    AssignmentMissing,
    /// An `=` with nothing before it.
    AssignmentMissingName,
    /// Several identifiers that no variable is bound to, in order of first occurrence.
    UnknownVariables(Vec<String>),
}

/// The mathematical value of a [`ParseError`].
pub enum Fault {
    EmptyExpression,
    UnknownVariable(Seq<char>),
    UnexpectedToken(Seq<char>),
    UnmatchedParen,
    AssignmentMissing,
    AssignmentMissingName,
    UnknownVariables(Seq<Seq<char>>),
}

/// The contents of a sequence of strings.
pub open spec fn string_texts(v: Seq<String>) -> Seq<Seq<char>> {
    v.map_values(|t: String| t@)
}

impl View for ParseError {
    type V = Fault;

    open spec fn view(&self) -> Fault {
        match self {
            ParseError::EmptyExpression => Fault::EmptyExpression,
            ParseError::UnknownVariable(n) => Fault::UnknownVariable(n@),
            ParseError::UnexpectedToken(t) => Fault::UnexpectedToken(t@),
            ParseError::UnmatchedParen => Fault::UnmatchedParen,
            ParseError::AssignmentMissing => Fault::AssignmentMissing,
            ParseError::AssignmentMissingName => Fault::AssignmentMissingName,
            ParseError::UnknownVariables(v) => Fault::UnknownVariables(string_texts(v@)),
        }
    }
}

/// `names` joined by `, `.
pub open spec fn joined(names: Seq<Seq<char>>) -> Seq<char>
    decreases names.len(),
{
    if names.len() == 0 {
        seq![]
    } else if names.len() == 1 {
        names[0]
    } else {
        joined(names.drop_last()) + seq![',', ' '] + names.last()
    }
}

/// The text shown for an error.
pub open spec fn message_of(f: Fault) -> Seq<char> {
    match f {
        Fault::EmptyExpression => "Expression could not be parsed"@,
        Fault::UnknownVariable(n) => "Unknown variable: "@ + n,
        Fault::UnexpectedToken(t) => "Unexpected token: "@ + t,
        Fault::UnmatchedParen => "Missing closing ')'"@,
        Fault::AssignmentMissing => "No assignment found"@,
        Fault::AssignmentMissingName => "Missing variable name before '='"@,
        Fault::UnknownVariables(v) => "Unknown variables: "@ + joined(v),
    }
}

impl ParseError {
    /// The text shown for this error.
    pub fn message(&self) -> (r: String)
        ensures
            r@ == message_of(self@),
    {
        match self {
            ParseError::EmptyExpression => String::from_str("Expression could not be parsed"),
            ParseError::UnknownVariable(n) => {
                let mut r = String::from_str("Unknown variable: ");
                r.append(n.as_str());
                r
            },
            ParseError::UnexpectedToken(t) => {
                let mut r = String::from_str("Unexpected token: ");
                r.append(t.as_str());
                r
            },
            ParseError::UnmatchedParen => String::from_str("Missing closing ')'"),
            ParseError::AssignmentMissing => String::from_str("No assignment found"),
            ParseError::AssignmentMissingName => String::from_str("Missing variable name before '='"),
            ParseError::UnknownVariables(v) => {
                let mut r = String::from_str("Unknown variables: ");
                let ghost head = r@;
                let mut i: usize = 0;
                while i < v.len()
                    invariant
                        i <= v@.len(),
                        head == "Unknown variables: "@,
                        r@ == head + joined(string_texts(v@).subrange(0, i as int)),
                    decreases v@.len() - i,
                {
                    let ghost before = string_texts(v@).subrange(0, i as int);
                    let ghost after = string_texts(v@).subrange(0, i + 1);
                    if i > 0 {
                        r.append(", ");
                    }
                    r.append(v[i].as_str());
                    proof {
                        reveal_strlit(", ");
                        assert(after.drop_last() =~= before);
                        assert(after.last() == v@[i as int]@);
                        if i == 0 {
                            assert(joined(before) =~= seq![]);
                            assert(r@ =~= head + joined(after));
                        } else {
                            assert(joined(after) == joined(before) + seq![',', ' '] + after.last());
                            assert(r@ =~= head + joined(after));
                        }
                    }
                    i += 1;
                }
                assert(string_texts(v@).subrange(0, v@.len() as int) =~= string_texts(v@));
                r
            },
        }
    }
}

} // verus!
