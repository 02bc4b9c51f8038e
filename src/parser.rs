//! The recursive-descent parser: a cursor over one scope of a token tree, whose
//! productions open a fresh cursor for each bracketed group they descend into.
use vstd::prelude::*;
use crate::ast::{
    arg_model, args_model, fields_model, lemma_args_model_push, lemma_fields_model_push,
    lemma_values_model_push, values_model,
};
use crate::ast::{Field, Name, Query, Value};
use crate::grammar::{
    arg_at, arg_list, args_part, field_at, field_len, field_list, fields_part, is_name, keyword_of,
    query_len,
    keyword_text, lemma_newline_run_bound, lemma_prepend_push, name_at, prepend, query_at,
    skip_newlines, starts_value, tree_span, value_list, value_of, Keyword,
};
use crate::lexer::{lex_error_is, lex_fails, lex_from, tokenise, tokens_lexemes};
use crate::text::{trim, trimmed};
use crate::token::{atom_at, is_newline, Atom, Bracket, ParseError, Token};

verus! {

/// Parses the text of a query, trimmed of white space at both ends. Where the
/// text cannot be tokenised, the tokeniser's error is returned. Tokens after the
/// root production are not looked at.
pub fn parse_query(input: &str) -> (r: Result<Query, ParseError>)
    ensures
        lex_fails(trimmed(input@)) ==> (r matches Err(e) && lex_error_is(trimmed(input@), e.0@)),
        !lex_fails(trimmed(input@)) ==> exists|ts: Seq<Token>|
            lex_from(trimmed(input@), 0) == Some(#[trigger] tokens_lexemes(ts)) && match r {
                Ok(q) => query_at(ts, 0) == Some(q@),
                Err(_) => query_at(ts, 0) is None,
            },
{
    let text = trim(input);
    let tokens = tokenise(text)?;
    let mut parser = Parser::new(tokens.as_slice())?;
    let r = parser.parse_query();
    assert(lex_from(text@, 0) == Some(tokens_lexemes(tokens@)));
    r
}

/// A cursor over the tokens of one scope: `tokens[pos..]` are still to be read.
pub struct Parser<'a> {
    pub tokens: &'a [Token],
    pub pos: usize,
}

fn parse_err<T>(msg: &str) -> (r: Result<T, ParseError>)
    ensures
        r is Err,
{
    Err(ParseError(msg.to_owned()))
}

/// Whether `s` holds exactly the characters of `lit`.
fn text_is(s: &str, lit: &Vec<char>) -> (r: bool)
    ensures
        r == (s@ == lit@),
{
    let n = s.unicode_len();
    if n != lit.len() {
        return false;
    }
    let mut i: usize = 0;
    while i < n
        invariant
            n == s@.len(),
            n == lit@.len(),
            i <= n,
            forall|k: int| 0 <= k < i ==> s@[k] == lit@[k],
        decreases n - i,
    {
        if s.get_char(i) != lit[i] {
            return false;
        }
        i = i + 1;
    }
    assert(s@ =~= lit@);
    true
}

/// The keyword spelled by `s`, if any.
pub fn keyword(s: &String) -> (r: Option<Keyword>)
    ensures
        r == keyword_of(s@),
{
    let q = vec!['q', 'u', 'e', 'r', 'y'];
    assert(q@ =~= keyword_text(Keyword::Query));
    if text_is(s.as_str(), &q) {
        return Some(Keyword::Query);
    }
    let m = vec!['m', 'u', 't', 'a', 't', 'i', 'o', 'n'];
    assert(m@ =~= keyword_text(Keyword::Mutation));
    if text_is(s.as_str(), &m) {
        return Some(Keyword::Mutation);
    }
    let l = vec!['n', 'u', 'l', 'l'];
    assert(l@ =~= keyword_text(Keyword::Null));
    if text_is(s.as_str(), &l) {
        return Some(Keyword::Null);
    }
    None
}

fn newline_token(t: &Token) -> (r: bool)
    ensures
        r == is_newline(*t),
{
    match t {
        Token::Atom(Atom::NewLine) => true,
        _ => false,
    }
}

impl<'a> Parser<'a> {
    /// The cursor lies within its scope.
    pub open spec fn wf(&self) -> bool {
        self.pos <= self.tokens@.len()
    }

    /// A cursor at the start of `tokens`.
    pub fn new(tokens: &'a [Token]) -> (r: Result<Parser<'a>, ParseError>)
        ensures
            r matches Ok(p) && p.tokens@ == tokens@ && p.pos == 0,
    {
        Ok(Parser { tokens, pos: 0 })
    }

    /// The number of tokens still to be read.
    pub fn remaining(&self) -> (r: usize)
        requires
            self.wf(),
        ensures
            r == self.tokens@.len() - self.pos,
    {
        self.tokens.len() - self.pos
    }

    /// Reads the next token.
    pub fn next_tok(&mut self) -> (r: Result<&'a Token, ParseError>)
        requires
            old(self).wf(),
        ensures
            final(self).wf(),
            final(self).tokens@ == old(self).tokens@,
            old(self).pos < old(self).tokens@.len() ==> (r matches Ok(t) && *t
                == old(self).tokens@[old(self).pos as int] && final(self).pos == old(self).pos + 1),
            old(self).pos >= old(self).tokens@.len() ==> (r is Err && final(self).pos
                == old(self).pos),
    {
        if self.pos >= self.tokens.len() {
            return parse_err("Unexpected end of stream");
        }
        let result = &self.tokens[self.pos];
        self.bump();
        Ok(result)
    }

    /// Skips the next token.
    pub fn bump(&mut self)
        requires
            old(self).pos < old(self).tokens@.len(),
        ensures
            final(self).tokens@ == old(self).tokens@,
            final(self).pos == old(self).pos + 1,
    {
        let n = self.tokens.len();
        assert(self.pos < n);
        self.pos = self.pos + 1;
    }

    /// The next token, without reading it; `None` at the end of the scope.
    pub fn peek_tok(&self) -> (r: Option<&'a Token>)
        requires
            self.wf(),
        ensures
            self.pos < self.tokens@.len() ==> (r matches Some(t) && *t
                == self.tokens@[self.pos as int]),
            self.pos >= self.tokens@.len() ==> r is None,
    {
        if self.pos < self.tokens.len() {
            Some(&self.tokens[self.pos])
        } else {
            None
        }
    }

    /// Reads the next token, which must be `atom`.
    pub fn eat(&mut self, atom: Atom) -> (r: Result<(), ParseError>)
        requires
            old(self).wf(),
        ensures
            final(self).wf(),
            final(self).tokens@ == old(self).tokens@,
            old(self).pos < old(self).tokens@.len() ==> final(self).pos == old(self).pos + 1,
            old(self).pos >= old(self).tokens@.len() ==> final(self).pos == old(self).pos,
            r is Ok <==> atom_at(old(self).tokens@, old(self).pos as int, atom),
    {
        match self.next_tok()? {
            Token::Atom(a) => if a.same_as(&atom) {
                Ok(())
            } else {
                parse_err("Unexpected token")
            },
            _ => parse_err("Unexpected token"),
        }
    }

    /// Reads the next token where it is `atom`; otherwise reads nothing.
    pub fn maybe_eat(&mut self, atom: Atom)
        requires
            old(self).wf(),
        ensures
            final(self).wf(),
            final(self).tokens@ == old(self).tokens@,
            final(self).pos == if atom_at(old(self).tokens@, old(self).pos as int, atom) {
                old(self).pos + 1
            } else {
                old(self).pos as int
            },
    {
        if let Some(tok) = self.peek_tok() {
            if let Token::Atom(a) = tok {
                if a.same_as(&atom) {
                    self.bump();
                }
            }
        }
    }

    /// Skips a run of newlines, stopping at the first other token or the end of
    /// the scope.
    pub fn ignore_newlines(&mut self)
        requires
            old(self).wf(),
        ensures
            final(self).wf(),
            final(self).tokens@ == old(self).tokens@,
            final(self).pos == skip_newlines(old(self).tokens@, old(self).pos as int),
    {
        let ghost t = self.tokens@;
        let ghost start = self.pos as int;
        while self.pos < self.tokens.len() && newline_token(&self.tokens[self.pos])
            invariant
                self.wf(),
                self.tokens@ == t,
                start <= self.pos,
                skip_newlines(t, start) == skip_newlines(t, self.pos as int),
            decreases t.len() - self.pos,
        {
            self.bump();
        }
    }

    /// Reads one value: `null`, an identifier or number (as a name), a string,
    /// or a bracketed list of values.
    pub fn parse_value(&mut self) -> (r: Result<Value, ParseError>)
        requires
            old(self).wf(),
        ensures
            final(self).wf(),
            final(self).tokens@ == old(self).tokens@,
            old(self).pos < old(self).tokens@.len() ==> final(self).pos == old(self).pos + 1 && match r {
                Ok(v) => value_of(old(self).tokens@[old(self).pos as int]) == Some(v@),
                Err(_) => value_of(old(self).tokens@[old(self).pos as int]) is None,
            },
            old(self).pos >= old(self).tokens@.len() ==> r is Err && final(self).pos == old(self).pos,
        decreases old(self).tokens@, 0int,
    {
        let ghost t = self.tokens@;
        let ghost p = self.pos as int;
        match self.next_tok()? {
            Token::Atom(Atom::Name(s)) => match keyword(s) {
                Some(Keyword::Null) => Ok(Value::Null),
                _ => Ok(Value::Name(Name(s.clone()))),
            },
            Token::Atom(Atom::Number(n)) => Ok(Value::Name(Name(n.clone()))),
            Token::Atom(Atom::String(s)) => Ok(Value::String(s.clone())),
            Token::Tree(Bracket::Square, toks) => {
                proof {
                    assert(decreases_to!(t => t[p]));
                }
                let mut sub = Parser { tokens: toks.as_slice(), pos: 0 };
                let vs = sub.parse_value_list()?;
                Ok(Value::Array(vs))
            },
            _ => parse_err("Unexpected token, expected: value"),
        }
    }

    /// Reads the values of a scope up to its end.
    pub fn parse_value_list(&mut self) -> (r: Result<Vec<Value>, ParseError>)
        requires
            old(self).wf(),
        ensures
            final(self).wf(),
            final(self).tokens@ == old(self).tokens@,
            r is Ok ==> final(self).pos == final(self).tokens@.len(),
            match r {
                Ok(vs) => value_list(old(self).tokens@, skip_newlines(old(self).tokens@, old(self).pos as int))
                    == Some(values_model(vs@)),
                Err(_) => value_list(old(self).tokens@, skip_newlines(old(self).tokens@, old(self).pos as int)) is None,
            },
        decreases old(self).tokens@, 2int,
    {
        let ghost t = self.tokens@;
        self.ignore_newlines();
        let ghost start = self.pos as int;
        let mut result: Vec<Value> = Vec::new();
        loop
            invariant
                self.wf(),
                self.tokens@ == t,
                old(self).tokens@ == t,
                start == skip_newlines(t, old(self).pos as int),
                value_list(t, start) == prepend(values_model(result@), value_list(t, self.pos as int)),
            decreases t.len() - self.pos,
        {
            let ghost p = self.pos as int;
            match self.maybe_parse_value() {
                Err(e) => return Err(e),
                Ok(None) => {
                    assert(values_model(result@) + Seq::empty() =~= values_model(result@));
                    return Ok(result);
                },
                Ok(Some(v)) => {
                    let ghost before = result@;
                    result.push(v);
                    self.maybe_eat(Atom::Comma);
                    self.ignore_newlines();
                    proof {
                        lemma_values_model_push(before, v);
                        lemma_prepend_push(values_model(before), v@, value_list(t, self.pos as int));
                        lemma_newline_run_bound(t, p + 1);
                        if p + 1 < t.len() {
                            lemma_newline_run_bound(t, p + 2);
                        }
                    }
                },
            }
        }
    }

    /// Reads a value where one starts at the cursor; `None` at the end of the scope.
    pub fn maybe_parse_value(&mut self) -> (r: Result<Option<Value>, ParseError>)
        requires
            old(self).wf(),
        ensures
            final(self).wf(),
            final(self).tokens@ == old(self).tokens@,
            old(self).pos >= old(self).tokens@.len() ==> (r matches Ok(None) && final(self).pos == old(self).pos),
            old(self).pos < old(self).tokens@.len() ==> match r {
                Ok(Some(v)) => starts_value(old(self).tokens@[old(self).pos as int])
                    && value_of(old(self).tokens@[old(self).pos as int]) == Some(v@)
                    && final(self).pos == old(self).pos + 1,
                Ok(None) => false,
                Err(_) => !starts_value(old(self).tokens@[old(self).pos as int])
                    || value_of(old(self).tokens@[old(self).pos as int]) is None,
            },
        decreases old(self).tokens@, 1int,
    {
        match self.peek_tok() {
            None => Ok(None),
            Some(Token::Atom(Atom::Name(_)))
            | Some(Token::Atom(Atom::String(_)))
            | Some(Token::Tree(Bracket::Square, _)) => Ok(Some(self.parse_value()?)),
            _ => parse_err("Unexpected token, expected: value"),
        }
    }

    /// Reads one identifier.
    pub fn parse_name(&mut self) -> (r: Result<Name, ParseError>)
        requires
            old(self).wf(),
        ensures
            final(self).wf(),
            final(self).tokens@ == old(self).tokens@,
            old(self).pos < old(self).tokens@.len() ==> final(self).pos == old(self).pos + 1,
            old(self).pos >= old(self).tokens@.len() ==> final(self).pos == old(self).pos,
            match r {
                Ok(n) => name_at(old(self).tokens@, old(self).pos as int) == Some(n.0@),
                Err(_) => name_at(old(self).tokens@, old(self).pos as int) is None,
            },
    {
        if let Token::Atom(Atom::Name(s)) = self.next_tok()? {
            return Ok(Name(s.clone()));
        }
        parse_err("Unexpected token, expected: name")
    }

    /// Reads the arguments in the parenthesised group at the cursor, if one stands
    /// there; none otherwise.
    pub fn maybe_parse_args(&mut self) -> (r: Result<Vec<(Name, Value)>, ParseError>)
        requires
            old(self).wf(),
        ensures
            final(self).wf(),
            final(self).tokens@ == old(self).tokens@,
            final(self).pos == old(self).pos + tree_span(old(self).tokens@, old(self).pos as int, Bracket::Paren),
            match r {
                Ok(a) => args_part(old(self).tokens@, old(self).pos as int) == Some(args_model(a@)),
                Err(_) => args_part(old(self).tokens@, old(self).pos as int) is None,
            },
    {
        if let Some(tok) = self.peek_tok() {
            if let Token::Tree(Bracket::Paren, toks) = tok {
                self.bump();
                let mut sub = Parser { tokens: toks.as_slice(), pos: 0 };
                return sub.parse_arg_list();
            }
        }
        Ok(vec![])
    }

    /// Reads the arguments of a scope up to its end.
    pub fn parse_arg_list(&mut self) -> (r: Result<Vec<(Name, Value)>, ParseError>)
        requires
            old(self).wf(),
        ensures
            final(self).wf(),
            final(self).tokens@ == old(self).tokens@,
            r is Ok ==> final(self).pos == final(self).tokens@.len(),
            match r {
                Ok(a) => arg_list(old(self).tokens@, skip_newlines(old(self).tokens@, old(self).pos as int))
                    == Some(args_model(a@)),
                Err(_) => arg_list(old(self).tokens@, skip_newlines(old(self).tokens@, old(self).pos as int)) is None,
            },
    {
        let ghost t = self.tokens@;
        self.ignore_newlines();
        let ghost start = self.pos as int;
        let mut result: Vec<(Name, Value)> = Vec::new();
        loop
            invariant
                self.wf(),
                self.tokens@ == t,
                old(self).tokens@ == t,
                start == skip_newlines(t, old(self).pos as int),
                arg_list(t, start) == prepend(args_model(result@), arg_list(t, self.pos as int)),
            decreases t.len() - self.pos,
        {
            let ghost p = self.pos as int;
            match self.maybe_parse_arg() {
                Err(e) => return Err(e),
                Ok(None) => {
                    assert(args_model(result@) + Seq::empty() =~= args_model(result@));
                    return Ok(result);
                },
                Ok(Some(a)) => {
                    let ghost before = result@;
                    result.push(a);
                    self.maybe_eat(Atom::Comma);
                    self.ignore_newlines();
                    proof {
                        lemma_args_model_push(before, a);
                        lemma_prepend_push(args_model(before), arg_model(a), arg_list(t, self.pos as int));
                        lemma_newline_run_bound(t, p + 3);
                        if p + 3 < t.len() {
                            lemma_newline_run_bound(t, p + 4);
                        }
                    }
                },
            }
        }
    }

    /// Reads an argument where one starts at the cursor; `None` at the end of the scope.
    pub fn maybe_parse_arg(&mut self) -> (r: Result<Option<(Name, Value)>, ParseError>)
        requires
            old(self).wf(),
        ensures
            final(self).wf(),
            final(self).tokens@ == old(self).tokens@,
            old(self).pos >= old(self).tokens@.len() ==> (r matches Ok(None) && final(self).pos == old(self).pos),
            old(self).pos < old(self).tokens@.len() ==> match r {
                Ok(Some(a)) => is_name(old(self).tokens@[old(self).pos as int])
                    && arg_at(old(self).tokens@, old(self).pos as int) == Some(arg_model(a))
                    && final(self).pos == old(self).pos + 3,
                Ok(None) => false,
                Err(_) => !is_name(old(self).tokens@[old(self).pos as int])
                    || arg_at(old(self).tokens@, old(self).pos as int) is None,
            },
    {
        match self.peek_tok() {
            None => Ok(None),
            Some(Token::Atom(Atom::Name(_))) => Ok(Some(self.parse_arg()?)),
            _ => parse_err("Unexpected token, expected: name"),
        }
    }

    /// Reads one argument: `name : value`.
    pub fn parse_arg(&mut self) -> (r: Result<(Name, Value), ParseError>)
        requires
            old(self).wf(),
        ensures
            final(self).wf(),
            final(self).tokens@ == old(self).tokens@,
            match r {
                Ok(a) => arg_at(old(self).tokens@, old(self).pos as int) == Some(arg_model(a))
                    && final(self).pos == old(self).pos + 3,
                Err(_) => arg_at(old(self).tokens@, old(self).pos as int) is None,
            },
    {
        let name = self.parse_name()?;
        self.eat(Atom::Colon)?;
        let value = self.parse_value()?;
        Ok((name, value))
    }

    /// Reads the root production: `query {...}`, `mutation`, or `{...}`. The
    /// body of a mutation is not read, nor is anything after the production.
    pub fn parse_query(&mut self) -> (r: Result<Query, ParseError>)
        requires
            old(self).wf(),
        ensures
            final(self).wf(),
            final(self).tokens@ == old(self).tokens@,
            r is Ok ==> final(self).pos == old(self).pos + query_len(old(self).tokens@, old(self).pos as int),
            match r {
                Ok(q) => query_at(old(self).tokens@, old(self).pos as int) == Some(q@),
                Err(_) => query_at(old(self).tokens@, old(self).pos as int) is None,
            },
    {
        match self.next_tok()? {
            Token::Atom(Atom::Name(n)) => match keyword(n) {
                Some(Keyword::Query) => {
                    let body = match self.next_tok()? {
                        Token::Tree(Bracket::Brace, toks) => {
                            let mut sub = Parser { tokens: toks.as_slice(), pos: 0 };
                            sub.parse_field_list()?
                        },
                        _ => return parse_err("Unexpected token, expected: `{`"),
                    };
                    Ok(Query::Query(body))
                },
                Some(Keyword::Mutation) => Ok(Query::Mutation),
                _ => parse_err("Unexpected token, expected: identifier or `{`"),
            },
            Token::Tree(Bracket::Brace, toks) => {
                let mut sub = Parser { tokens: toks.as_slice(), pos: 0 };
                let body = sub.parse_field_list()?;
                Ok(Query::Query(body))
            },
            _ => parse_err("Unexpected token, expected: identifier or `{`"),
        }
    }

    /// Reads the fields of a scope up to its end.
    pub fn parse_field_list(&mut self) -> (r: Result<Vec<Field>, ParseError>)
        requires
            old(self).wf(),
        ensures
            final(self).wf(),
            final(self).tokens@ == old(self).tokens@,
            r is Ok ==> final(self).pos == final(self).tokens@.len(),
            match r {
                Ok(fs) => field_list(old(self).tokens@, skip_newlines(old(self).tokens@, old(self).pos as int))
                    == Some(fields_model(fs@)),
                Err(_) => field_list(old(self).tokens@, skip_newlines(old(self).tokens@, old(self).pos as int)) is None,
            },
        decreases old(self).tokens@, 4int,
    {
        let ghost t = self.tokens@;
        self.ignore_newlines();
        let ghost start = self.pos as int;
        let mut result: Vec<Field> = Vec::new();
        loop
            invariant
                self.wf(),
                self.tokens@ == t,
                old(self).tokens@ == t,
                start == skip_newlines(t, old(self).pos as int),
                field_list(t, start) == prepend(fields_model(result@), field_list(t, self.pos as int)),
            decreases t.len() - self.pos,
        {
            let ghost p = self.pos as int;
            match self.maybe_parse_field() {
                Err(e) => return Err(e),
                Ok(None) => {
                    assert(fields_model(result@) + Seq::empty() =~= fields_model(result@));
                    return Ok(result);
                },
                Ok(Some(f)) => {
                    let ghost before = result@;
                    result.push(f);
                    self.maybe_eat(Atom::Comma);
                    self.ignore_newlines();
                    proof {
                        let e = p + field_len(t, p);
                        lemma_fields_model_push(before, f);
                        lemma_prepend_push(fields_model(before), f@, field_list(t, self.pos as int));
                        lemma_newline_run_bound(t, e);
                        if e < t.len() {
                            lemma_newline_run_bound(t, e + 1);
                        }
                    }
                },
            }
        }
    }

    /// Reads a field where one starts at the cursor; `None` at the end of the scope.
    pub fn maybe_parse_field(&mut self) -> (r: Result<Option<Field>, ParseError>)
        requires
            old(self).wf(),
        ensures
            final(self).wf(),
            final(self).tokens@ == old(self).tokens@,
            old(self).pos >= old(self).tokens@.len() ==> (r matches Ok(None) && final(self).pos == old(self).pos),
            old(self).pos < old(self).tokens@.len() ==> match r {
                Ok(Some(f)) => is_name(old(self).tokens@[old(self).pos as int])
                    && field_at(old(self).tokens@, old(self).pos as int) == Some(f@)
                    && final(self).pos == old(self).pos + field_len(old(self).tokens@, old(self).pos as int),
                Ok(None) => false,
                Err(_) => !is_name(old(self).tokens@[old(self).pos as int])
                    || field_at(old(self).tokens@, old(self).pos as int) is None,
            },
        decreases old(self).tokens@, 3int,
    {
        match self.peek_tok() {
            None => Ok(None),
            Some(Token::Atom(Atom::Name(_))) => Ok(Some(self.parse_field()?)),
            _ => parse_err("Unexpected token, expected: field"),
        }
    }

    /// Reads one field: a name, then optionally a parenthesised argument list,
    /// then optionally a braced list of sub-fields.
    pub fn parse_field(&mut self) -> (r: Result<Field, ParseError>)
        requires
            old(self).wf(),
        ensures
            final(self).wf(),
            final(self).tokens@ == old(self).tokens@,
            match r {
                Ok(f) => field_at(old(self).tokens@, old(self).pos as int) == Some(f@)
                    && final(self).pos == old(self).pos + field_len(old(self).tokens@, old(self).pos as int),
                Err(_) => field_at(old(self).tokens@, old(self).pos as int) is None,
            },
        decreases old(self).tokens@, 2int,
    {
        let name = self.parse_name()?;
        let args = self.maybe_parse_args()?;
        let fields = self.maybe_parse_fields()?;
        Ok(Field { name, alias: None, args, fields })
    }

    /// Reads the fields in the braced group at the cursor, if one stands there;
    /// none otherwise.
    pub fn maybe_parse_fields(&mut self) -> (r: Result<Vec<Field>, ParseError>)
        requires
            old(self).wf(),
        ensures
            final(self).wf(),
            final(self).tokens@ == old(self).tokens@,
            final(self).pos == old(self).pos + tree_span(old(self).tokens@, old(self).pos as int, Bracket::Brace),
            match r {
                Ok(fs) => fields_part(old(self).tokens@, old(self).pos as int) == Some(fields_model(fs@)),
                Err(_) => fields_part(old(self).tokens@, old(self).pos as int) is None,
            },
        decreases old(self).tokens@, 1int,
    {
        let ghost t = self.tokens@;
        let ghost p = self.pos as int;
        if let Some(tok) = self.peek_tok() {
            if let Token::Tree(Bracket::Brace, toks) = tok {
                proof {
                    assert(decreases_to!(t => t[p]));
                }
                self.bump();
                let mut sub = Parser { tokens: toks.as_slice(), pos: 0 };
                return sub.parse_field_list();
            }
        }
        Ok(vec![])
    }
}

} // verus!
