//! The grammar, as functions from a token sequence and a position to what the
//! production at that position yields (`None` where it fails).
use vstd::prelude::*;
use crate::ast::{FieldModel, QueryModel, ValueModel};
use crate::token::{is_comma, is_newline, Atom, Bracket, Token};

verus! {

/// The identifiers that the grammar gives a meaning of their own.
#[derive(Clone, Copy, Debug, PartialEq, Eq, Structural)]
pub enum Keyword {
    Query,
    Mutation,
    Null,
}

pub open spec fn keyword_text(k: Keyword) -> Seq<char> {
    match k {
        Keyword::Query => seq!['q', 'u', 'e', 'r', 'y'],
        Keyword::Mutation => seq!['m', 'u', 't', 'a', 't', 'i', 'o', 'n'],
        Keyword::Null => seq!['n', 'u', 'l', 'l'],
    }
}

/// The keyword whose text is `s`, if any.
pub open spec fn keyword_of(s: Seq<char>) -> Option<Keyword> {
    if s == keyword_text(Keyword::Query) {
        Some(Keyword::Query)
    } else if s == keyword_text(Keyword::Mutation) {
        Some(Keyword::Mutation)
    } else if s == keyword_text(Keyword::Null) {
        Some(Keyword::Null)
    } else {
        None
    }
}

/// The number of consecutive newline atoms from position `i`.
pub open spec fn newline_run(t: Seq<Token>, i: int) -> nat
    decreases t.len() - i,
{
    if 0 <= i < t.len() && is_newline(t[i]) {
        1 + newline_run(t, i + 1)
    } else {
        0
    }
}

/// The position of the first token at or after `i` that is not a newline.
pub open spec fn skip_newlines(t: Seq<Token>, i: int) -> int {
    i + newline_run(t, i)
}

/// The position after an item's separator: an optional comma, then newlines.
pub open spec fn after_item(t: Seq<Token>, i: int) -> int {
    let j = if 0 <= i < t.len() && is_comma(t[i]) {
        i + 1
    } else {
        i
    };
    skip_newlines(t, j)
}

/// Skipping newlines from `i` passes over newlines only, and stops at the first
/// token that is not one, or at the end of the scope.
pub proof fn lemma_newline_run_bound(t: Seq<Token>, i: int)
    requires
        0 <= i <= t.len(),
    ensures
        i + newline_run(t, i) <= t.len(),
        forall|k: int| i <= k < i + newline_run(t, i) ==> is_newline(#[trigger] t[k]),
        i + newline_run(t, i) < t.len() ==> !is_newline(t[i + newline_run(t, i)]),
    decreases t.len() - i,
{
    if i < t.len() && is_newline(t[i]) {
        lemma_newline_run_bound(t, i + 1);
    }
}

/// Whether a value may start at this token (numbers may not start a list item).
pub open spec fn starts_value(tok: Token) -> bool {
    match tok {
        Token::Atom(Atom::Name(_)) => true,
        Token::Atom(Atom::String(_)) => true,
        Token::Tree(Bracket::Square, _) => true,
        _ => false,
    }
}

pub open spec fn is_name(tok: Token) -> bool {
    tok matches Token::Atom(Atom::Name(_))
}

/// The text of the identifier at position `i`, if one stands there.
pub open spec fn name_at(t: Seq<Token>, i: int) -> Option<Seq<char>> {
    if 0 <= i < t.len() {
        match t[i] {
            Token::Atom(Atom::Name(s)) => Some(s@),
            _ => None,
        }
    } else {
        None
    }
}

/// The value that one token denotes.
pub open spec fn value_of(tok: Token) -> Option<ValueModel>
    decreases tok, 0int,
{
    match tok {
        Token::Atom(Atom::Name(s)) => if keyword_of(s@) == Some(Keyword::Null) {
            Some(ValueModel::Null)
        } else {
            Some(ValueModel::Name(s@))
        },
        Token::Atom(Atom::Number(s)) => Some(ValueModel::Name(s@)),
        Token::Atom(Atom::String(s)) => Some(ValueModel::Str(s@)),
        Token::Tree(Bracket::Square, v) => match value_list(v@, skip_newlines(v@, 0)) {
            Some(vs) => Some(ValueModel::Array(vs)),
            None => None,
        },
        _ => None,
    }
}

/// The values listed from position `i` to the end of the scope `t`.
pub open spec fn value_list(t: Seq<Token>, i: int) -> Option<Seq<ValueModel>>
    decreases t, t.len() - i,
{
    if !(0 <= i < t.len()) {
        Some(Seq::empty())
    } else if !starts_value(t[i]) {
        None
    } else {
        match value_of(t[i]) {
            None => None,
            Some(v) => {
                proof {
                    lemma_newline_run_bound(t, i + 1);
                    if i + 1 < t.len() {
                        lemma_newline_run_bound(t, i + 2);
                    }
                }
                match value_list(t, after_item(t, i + 1)) {
                    None => None,
                    Some(rest) => Some(seq![v] + rest),
                }
            },
        }
    }
}

/// The argument `name : value` at position `i`.
pub open spec fn arg_at(t: Seq<Token>, i: int) -> Option<(Seq<char>, ValueModel)> {
    if 0 <= i && i + 2 < t.len() && (t[i + 1] matches Token::Atom(Atom::Colon)) {
        match (t[i], value_of(t[i + 2])) {
            (Token::Atom(Atom::Name(n)), Some(v)) => Some((n@, v)),
            _ => None,
        }
    } else {
        None
    }
}

/// The arguments listed from position `i` to the end of the scope `t`.
pub open spec fn arg_list(t: Seq<Token>, i: int) -> Option<Seq<(Seq<char>, ValueModel)>>
    decreases t.len() - i,
{
    if !(0 <= i < t.len()) {
        Some(Seq::empty())
    } else if !is_name(t[i]) {
        None
    } else {
        match arg_at(t, i) {
            None => None,
            Some(a) => {
                proof {
                    lemma_newline_run_bound(t, i + 3);
                    if i + 3 < t.len() {
                        lemma_newline_run_bound(t, i + 4);
                    }
                }
                match arg_list(t, after_item(t, i + 3)) {
                    None => None,
                    Some(rest) => Some(seq![a] + rest),
                }
            },
        }
    }
}

/// 1 where the token at `i` is a bracket pair of kind `b`, else 0.
pub open spec fn tree_span(t: Seq<Token>, i: int, b: Bracket) -> nat {
    if 0 <= i < t.len() {
        match t[i] {
            Token::Tree(c, _) => if c == b {
                1
            } else {
                0
            },
            _ => 0,
        }
    } else {
        0
    }
}

/// The number of tokens that the field at position `i` takes.
pub open spec fn field_len(t: Seq<Token>, i: int) -> nat {
    let a = tree_span(t, i + 1, Bracket::Paren);
    1 + a + tree_span(t, i + 1 + a, Bracket::Brace)
}

/// The arguments of a field whose name stands before position `j`: those of the
/// parenthesised group at `j`, or none where no such group stands there.
pub open spec fn args_part(t: Seq<Token>, j: int) -> Option<Seq<(Seq<char>, ValueModel)>> {
    if 0 <= j < t.len() {
        match t[j] {
            Token::Tree(Bracket::Paren, v) => arg_list(v@, skip_newlines(v@, 0)),
            _ => Some(Seq::empty()),
        }
    } else {
        Some(Seq::empty())
    }
}

/// The sub-fields of a field: those of the braced group at `k`, or none where no
/// such group stands there.
pub open spec fn fields_part(t: Seq<Token>, k: int) -> Option<Seq<FieldModel>>
    decreases t, 0int,
{
    if 0 <= k < t.len() {
        match t[k] {
            Token::Tree(Bracket::Brace, v) => field_list(v@, skip_newlines(v@, 0)),
            _ => Some(Seq::empty()),
        }
    } else {
        Some(Seq::empty())
    }
}

/// The field `name (args)? {fields}?` at position `i`.
pub open spec fn field_at(t: Seq<Token>, i: int) -> Option<FieldModel>
    decreases t, 1int,
{
    if 0 <= i < t.len() {
        let j = i + 1;
        let k = j + tree_span(t, j, Bracket::Paren);
        match (t[i], args_part(t, j), fields_part(t, k)) {
            (Token::Atom(Atom::Name(n)), Some(a), Some(f)) => Some(
                FieldModel { name: n@, alias: None, args: a, fields: f },
            ),
            _ => None,
        }
    } else {
        None
    }
}

/// The fields listed from position `i` to the end of the scope `t`.
pub open spec fn field_list(t: Seq<Token>, i: int) -> Option<Seq<FieldModel>>
    decreases t, t.len() - i + 2,
{
    if !(0 <= i < t.len()) {
        Some(Seq::empty())
    } else if !is_name(t[i]) {
        None
    } else {
        match field_at(t, i) {
            None => None,
            Some(f) => {
                let e = i + field_len(t, i);
                proof {
                    lemma_newline_run_bound(t, e);
                    if e < t.len() {
                        lemma_newline_run_bound(t, e + 1);
                    }
                }
                match field_list(t, after_item(t, e)) {
                    None => None,
                    Some(rest) => Some(seq![f] + rest),
                }
            },
        }
    }
}

/// `r` with `acc` put before what it holds.
pub open spec fn prepend<A>(acc: Seq<A>, r: Option<Seq<A>>) -> Option<Seq<A>> {
    match r {
        Some(s) => Some(acc + s),
        None => None,
    }
}

pub proof fn lemma_prepend_push<A>(acc: Seq<A>, x: A, r: Option<Seq<A>>)
    ensures
        prepend(acc.push(x), r) == prepend(acc, prepend(seq![x], r)),
{
    if let Some(s) = r {
        assert(acc.push(x) + s =~= acc + (seq![x] + s));
    }
}

/// The number of tokens that the root production at `i` reads: two for
/// `query {...}`, one for `mutation` or `{...}`.
pub open spec fn query_len(t: Seq<Token>, i: int) -> int {
    match t[i] {
        Token::Atom(Atom::Name(s)) => if keyword_of(s@) == Some(Keyword::Query) {
            2
        } else {
            1
        },
        _ => 1,
    }
}

/// The root production at position `i`: `query {...}`, `mutation`, or `{...}`.
/// Tokens after it are not looked at.
pub open spec fn query_at(t: Seq<Token>, i: int) -> Option<QueryModel> {
    if 0 <= i < t.len() {
        match t[i] {
            Token::Atom(Atom::Name(s)) => if keyword_of(s@) == Some(Keyword::Query) {
                if i + 1 < t.len() {
                    match t[i + 1] {
                        Token::Tree(Bracket::Brace, v) => match field_list(
                            v@,
                            skip_newlines(v@, 0),
                        ) {
                            Some(fs) => Some(QueryModel::Query(fs)),
                            None => None,
                        },
                        _ => None,
                    }
                } else {
                    None
                }
            } else if keyword_of(s@) == Some(Keyword::Mutation) {
                Some(QueryModel::Mutation)
            } else {
                None
            },
            Token::Tree(Bracket::Brace, v) => match field_list(v@, skip_newlines(v@, 0)) {
                Some(fs) => Some(QueryModel::Query(fs)),
                None => None,
            },
            _ => None,
        }
    } else {
        None
    }
}

} // verus!
