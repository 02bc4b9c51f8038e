use vstd::prelude::*;

verus! {

/// The three kinds of bracket pairs that group tokens into trees.
#[derive(Clone, Copy, Debug, PartialEq, Eq, Structural)]
pub enum Bracket {
    Brace,
    Paren,
    Square,
}

/// A token that is not a bracketed group.
#[derive(Debug, PartialEq, Eq)]
pub enum Atom {
    Name(String),
    Number(String),
    String(String),
    Colon,
    Comma,
    Bang,
    NewLine,
}

/// A token: an atom, or a bracket pair with the tokens it encloses.
#[derive(Debug, PartialEq, Eq)]
pub enum Token {
    Atom(Atom),
    Tree(Bracket, Vec<Token>),
}

/// The one kind of failure: a description of what went wrong.
#[derive(Debug, PartialEq, Eq)]
pub struct ParseError(pub String);

/// Two atoms are the same when they are of the same kind and carry the same text.
pub open spec fn same_atom(a: Atom, b: Atom) -> bool {
    match (a, b) {
        (Atom::Name(x), Atom::Name(y)) => x@ == y@,
        (Atom::Number(x), Atom::Number(y)) => x@ == y@,
        (Atom::String(x), Atom::String(y)) => x@ == y@,
        (Atom::Colon, Atom::Colon) => true,
        (Atom::Comma, Atom::Comma) => true,
        (Atom::Bang, Atom::Bang) => true,
        (Atom::NewLine, Atom::NewLine) => true,
        _ => false,
    }
}

/// Whether the token at position `i` of `t` is the atom `atom`.
pub open spec fn atom_at(t: Seq<Token>, i: int, atom: Atom) -> bool {
    0 <= i < t.len() && match t[i] {
        Token::Atom(a) => same_atom(a, atom),
        _ => false,
    }
}

pub open spec fn is_newline(t: Token) -> bool {
    t matches Token::Atom(Atom::NewLine)
}

pub open spec fn is_comma(t: Token) -> bool {
    t matches Token::Atom(Atom::Comma)
}

impl Atom {
    /// Whether `self` and `other` are the same atom.
    pub fn same_as(&self, other: &Atom) -> (r: bool)
        ensures
            r == same_atom(*self, *other),
    {
        match (self, other) {
            (Atom::Name(x), Atom::Name(y)) => x.eq(y),
            (Atom::Number(x), Atom::Number(y)) => x.eq(y),
            (Atom::String(x), Atom::String(y)) => x.eq(y),
            (Atom::Colon, Atom::Colon) => true,
            (Atom::Comma, Atom::Comma) => true,
            (Atom::Bang, Atom::Bang) => true,
            (Atom::NewLine, Atom::NewLine) => true,
            _ => false,
        }
    }
}

} // verus!
