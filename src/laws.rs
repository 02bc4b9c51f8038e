//! Properties of the grammar as a whole.
use vstd::prelude::*;
use crate::ast::QueryModel;
use crate::grammar::{
    after_item, arg_list, field_at, field_len, field_list, is_name, keyword_of,
    lemma_newline_run_bound, newline_run, query_at, skip_newlines, tree_span, value_list, Keyword,
};
use crate::token::{is_comma, is_newline, Atom, Bracket, Token};

verus! {

/// A scope that holds nothing but newlines lists no values, no arguments and
/// no fields, and is not an error.
pub proof fn blank_scope_lists_nothing(t: Seq<Token>)
    requires
        forall|k: int| 0 <= k < t.len() ==> is_newline(#[trigger] t[k]),
    ensures
        value_list(t, skip_newlines(t, 0)) is Some && value_list(t, skip_newlines(t, 0))->Some_0.len() == 0,
        arg_list(t, skip_newlines(t, 0)) is Some && arg_list(t, skip_newlines(t, 0))->Some_0.len() == 0,
        field_list(t, skip_newlines(t, 0)) is Some && field_list(t, skip_newlines(t, 0))->Some_0.len() == 0,
{
    lemma_newline_run_bound(t, 0);
    if skip_newlines(t, 0) < t.len() {
        assert(is_newline(t[skip_newlines(t, 0)]));
    }
}

/// The identifier `mutation` as root production gives a mutation, whatever
/// follows it.
pub proof fn mutation_ignores_its_body(t: Seq<Token>, i: int)
    requires
        0 <= i < t.len(),
        t[i] matches Token::Atom(Atom::Name(s)) && keyword_of(s@) == Some(Keyword::Mutation),
    ensures
        query_at(t, i) == Some(QueryModel::Mutation),
{
}

/// Tokens after a complete root production change nothing.
pub proof fn trailing_tokens_ignored(t: Seq<Token>, u: Seq<Token>, i: int)
    requires
        query_at(t, i) is Some,
    ensures
        query_at(t + u, i) == query_at(t, i),
{
    assert((t + u)[i] == t[i]);
    if i + 1 < t.len() {
        assert((t + u)[i + 1] == t[i + 1]);
    }
}

/// A separator between two items: nothing, or one comma or newline, followed
/// by any number of newlines.
pub open spec fn is_separator(s: Seq<Token>) -> bool {
    &&& (s.len() > 0 ==> is_newline(s[0]) || is_comma(s[0]))
    &&& forall|k: int| 1 <= k < s.len() ==> is_newline(#[trigger] s[k])
}

/// The tokens of exactly one field.
pub open spec fn is_one_field(x: Seq<Token>) -> bool {
    x.len() > 0 && is_name(x[0]) && field_len(x, 0) == x.len()
}

proof fn lemma_newline_run_shift(a: Seq<Token>, b: Seq<Token>, j: int)
    requires
        0 <= j,
    ensures
        newline_run(a + b, a.len() + j) == newline_run(b, j),
    decreases b.len() - j,
{
    if j < b.len() {
        assert((a + b)[a.len() + j] == b[j]);
        lemma_newline_run_shift(a, b, j + 1);
    }
}

proof fn lemma_newline_run_through(t: Seq<Token>, i: int, n: int)
    requires
        0 <= i,
        0 <= n,
        i + n <= t.len(),
        forall|k: int| i <= k < i + n ==> is_newline(#[trigger] t[k]),
    ensures
        newline_run(t, i) == n + newline_run(t, i + n),
    decreases n,
{
    if n > 0 {
        lemma_newline_run_through(t, i + 1, n - 1);
    }
}

proof fn lemma_field_at_shift(p: Seq<Token>, r: Seq<Token>, j: int)
    requires
        0 <= j,
    ensures
        field_at(p + r, p.len() + j) == field_at(r, j),
        field_len(p + r, p.len() + j) == field_len(r, j),
{
    let t = p + r;
    let i = p.len() + j;
    assert(forall|k: int| j <= k < r.len() ==> t[p.len() + k] == r[k]);
    assert(tree_span(t, i + 1, Bracket::Paren) == tree_span(r, j + 1, Bracket::Paren));
    let a = tree_span(r, j + 1, Bracket::Paren);
    assert(tree_span(t, i + 1 + a, Bracket::Brace) == tree_span(r, j + 1 + a, Bracket::Brace));
}

proof fn lemma_field_list_shift(p: Seq<Token>, r: Seq<Token>, j: int)
    requires
        0 <= j <= r.len(),
    ensures
        field_list(p + r, p.len() + j) == field_list(r, j),
    decreases r.len() - j,
{
    let t = p + r;
    let i = p.len() + j;
    if j < r.len() {
        assert(t[i] == r[j]);
        lemma_field_at_shift(p, r, j);
        if is_name(r[j]) && field_at(r, j) is Some {
            let e = j + field_len(r, j);
            lemma_newline_run_bound(r, e);
            if e < r.len() {
                assert(t[p.len() + e] == r[e]);
                lemma_newline_run_bound(r, e + 1);
                lemma_newline_run_shift(p, r, e + 1);
            }
            lemma_newline_run_shift(p, r, e);
            assert(after_item(t, i + field_len(r, j)) == p.len() + after_item(r, e));
            lemma_field_list_shift(p, r, after_item(r, e));
        }
    }
}

proof fn lemma_one_field_extend(x: Seq<Token>, u: Seq<Token>)
    requires
        is_one_field(x),
        u.len() > 0 ==> !(u[0] matches Token::Tree(_, _)),
    ensures
        field_at(x + u, 0) == field_at(x, 0),
        field_len(x + u, 0) == x.len(),
{
    let t = x + u;
    assert(forall|k: int| 0 <= k < x.len() ==> t[k] == x[k]);
    if u.len() > 0 {
        assert(t[x.len() as int] == u[0]);
    }
}

proof fn lemma_after_separator(x: Seq<Token>, s: Seq<Token>, r: Seq<Token>)
    requires
        is_separator(s),
        r.len() == 0 || is_name(r[0]),
    ensures
        after_item(x + s + r, x.len() as int) == x.len() + s.len(),
{
    let t = x + s + r;
    assert(forall|k: int| 0 <= k < s.len() ==> t[x.len() + k] == s[k]);
    if r.len() > 0 {
        assert(t[(x.len() + s.len()) as int] == r[0]);
    }
    if s.len() > 0 {
        assert(forall|k: int| x.len() + 1 <= k < x.len() + s.len() ==> is_newline(#[trigger] t[k])) by {
            assert(forall|k: int| x.len() + 1 <= k < x.len() + s.len() ==> t[k] == s[k - x.len()]);
        }
        lemma_newline_run_through(t, x.len() + 1int, s.len() - 1int);
        if is_newline(s[0]) {
            lemma_newline_run_through(t, x.len() as int, 1);
        }
    }
}

/// The separator after a field does not change the list: nothing, a comma and
/// newlines can stand for one another, where the next item or the end of the
/// scope follows.
pub proof fn separators_are_interchangeable(
    x: Seq<Token>,
    s1: Seq<Token>,
    s2: Seq<Token>,
    r: Seq<Token>,
)
    requires
        is_one_field(x),
        is_separator(s1),
        is_separator(s2),
        r.len() == 0 || is_name(r[0]),
    ensures
        field_list(x + s1 + r, 0) == field_list(x + s2 + r, 0),
{
    assert(x + s1 + r == x + (s1 + r));
    assert(x + s2 + r == x + (s2 + r));
    if s1.len() == 0 {
        assert(s1 + r =~= r);
    } else {
        assert((s1 + r)[0] == s1[0]);
    }
    if s2.len() == 0 {
        assert(s2 + r =~= r);
    } else {
        assert((s2 + r)[0] == s2[0]);
    }
    lemma_one_field_extend(x, s1 + r);
    lemma_one_field_extend(x, s2 + r);
    lemma_after_separator(x, s1, r);
    lemma_after_separator(x, s2, r);
    lemma_field_list_shift(x + s1, r, 0);
    lemma_field_list_shift(x + s2, r, 0);
    assert((x + s1 + r)[0] == x[0]);
    assert((x + s2 + r)[0] == x[0]);
}

} // verus!
