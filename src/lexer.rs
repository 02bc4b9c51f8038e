//! Splitting text into a token tree: each bracket pair becomes one `Tree` token
//! holding the tokens between its brackets.
use vstd::prelude::*;
use crate::grammar::{lemma_prepend_push, prepend};
use crate::token::{Atom, Bracket, ParseError, Token};

verus! {

/// One unit of the text, before bracket pairs are grouped.
pub enum Lexeme {
    Name(Seq<char>),
    Number(Seq<char>),
    Str(Seq<char>),
    Colon,
    Comma,
    Bang,
    NewLine,
    Open(Bracket),
    Close(Bracket),
}

/// The runs of characters that make up one lexeme.
#[derive(Clone, Copy, PartialEq, Eq, Structural)]
pub enum CharClass {
    Digit,
    Ident,
    NotQuote,
}

pub open spec fn is_space(c: char) -> bool {
    c == ' ' || c == '\t' || c == '\r'
}

pub open spec fn is_digit(c: char) -> bool {
    '0' <= c <= '9'
}

pub open spec fn is_ident_start(c: char) -> bool {
    ('a' <= c <= 'z') || ('A' <= c <= 'Z') || c == '_'
}

pub open spec fn in_class(c: char, k: CharClass) -> bool {
    match k {
        CharClass::Digit => is_digit(c),
        CharClass::Ident => is_ident_start(c) || is_digit(c),
        CharClass::NotQuote => c != '"',
    }
}

/// The lexeme of a single punctuation character.
pub open spec fn punct(c: char) -> Option<Lexeme> {
    if c == '\n' {
        Some(Lexeme::NewLine)
    } else if c == ':' {
        Some(Lexeme::Colon)
    } else if c == ',' {
        Some(Lexeme::Comma)
    } else if c == '!' {
        Some(Lexeme::Bang)
    } else if c == '{' {
        Some(Lexeme::Open(Bracket::Brace))
    } else if c == '(' {
        Some(Lexeme::Open(Bracket::Paren))
    } else if c == '[' {
        Some(Lexeme::Open(Bracket::Square))
    } else if c == '}' {
        Some(Lexeme::Close(Bracket::Brace))
    } else if c == ')' {
        Some(Lexeme::Close(Bracket::Paren))
    } else if c == ']' {
        Some(Lexeme::Close(Bracket::Square))
    } else {
        None
    }
}

/// The number of consecutive characters of class `k` from position `i`.
pub open spec fn run_len(s: Seq<char>, i: int, k: CharClass) -> nat
    decreases s.len() - i,
{
    if 0 <= i < s.len() && in_class(s[i], k) {
        1 + run_len(s, i + 1, k)
    } else {
        0
    }
}

pub proof fn lemma_run_len_bound(s: Seq<char>, i: int, k: CharClass)
    requires
        0 <= i <= s.len(),
    ensures
        i + run_len(s, i, k) <= s.len(),
        i + run_len(s, i, k) < s.len() ==> !in_class(s[i + run_len(s, i, k)], k),
    decreases s.len() - i,
{
    if i < s.len() && in_class(s[i], k) {
        lemma_run_len_bound(s, i + 1, k);
    }
}

/// Whether a number starts at position `i`: a digit, or `-` before a digit.
pub open spec fn number_starts(s: Seq<char>, i: int) -> bool {
    0 <= i < s.len() && (is_digit(s[i]) || (s[i] == '-' && i + 1 < s.len() && is_digit(
        s[i + 1],
    )))
}

/// The lexemes of `s` from position `i` on; `None` where a character cannot
/// start a lexeme or a string is not closed. Spaces, tabs and carriage returns
/// separate lexemes and are dropped.
pub open spec fn lex_from(s: Seq<char>, i: int) -> Option<Seq<Lexeme>>
    decreases s.len() - i,
{
    if !(0 <= i < s.len()) {
        Some(Seq::empty())
    } else {
        proof {
            lemma_run_len_bound(s, i + 1, CharClass::Digit);
            lemma_run_len_bound(s, i + 1, CharClass::Ident);
            lemma_run_len_bound(s, i + 1, CharClass::NotQuote);
        }
        let c = s[i];
        if is_space(c) {
            lex_from(s, i + 1)
        } else if c == '"' {
            let j = i + 1 + run_len(s, i + 1, CharClass::NotQuote);
            if j < s.len() {
                prepend(seq![Lexeme::Str(s.subrange(i + 1, j))], lex_from(s, j + 1))
            } else {
                None
            }
        } else if number_starts(s, i) {
            let j = i + 1 + run_len(s, i + 1, CharClass::Digit);
            prepend(seq![Lexeme::Number(s.subrange(i, j))], lex_from(s, j))
        } else if is_ident_start(c) {
            let j = i + 1 + run_len(s, i + 1, CharClass::Ident);
            prepend(seq![Lexeme::Name(s.subrange(i, j))], lex_from(s, j))
        } else {
            match punct(c) {
                Some(x) => prepend(seq![x], lex_from(s, i + 1)),
                None => None,
            }
        }
    }
}

/// The brackets left open after `l`, innermost last; `None` where a closing
/// bracket does not match the innermost open one.
pub open spec fn open_brackets(l: Seq<Lexeme>) -> Option<Seq<Bracket>>
    decreases l.len(),
{
    if l.len() == 0 {
        Some(Seq::empty())
    } else {
        match open_brackets(l.drop_last()) {
            None => None,
            Some(st) => match l.last() {
                Lexeme::Open(b) => Some(st.push(b)),
                Lexeme::Close(b) => if st.len() > 0 && st.last() == b {
                    Some(st.drop_last())
                } else {
                    None
                },
                _ => Some(st),
            },
        }
    }
}

/// Every bracket of `l` is closed by a bracket of its own kind.
pub open spec fn balanced(l: Seq<Lexeme>) -> bool {
    open_brackets(l) == Some(Seq::<Bracket>::empty())
}

pub open spec fn atom_lexeme(a: Atom) -> Lexeme {
    match a {
        Atom::Name(s) => Lexeme::Name(s@),
        Atom::Number(s) => Lexeme::Number(s@),
        Atom::String(s) => Lexeme::Str(s@),
        Atom::Colon => Lexeme::Colon,
        Atom::Comma => Lexeme::Comma,
        Atom::Bang => Lexeme::Bang,
        Atom::NewLine => Lexeme::NewLine,
    }
}

/// The lexemes that a token stands for, its brackets included.
pub open spec fn token_lexemes(t: Token) -> Seq<Lexeme>
    decreases t,
{
    match t {
        Token::Atom(a) => seq![atom_lexeme(a)],
        Token::Tree(b, v) => seq![Lexeme::Open(b)] + tokens_lexemes(v@) + seq![Lexeme::Close(b)],
    }
}

pub open spec fn tokens_lexemes(s: Seq<Token>) -> Seq<Lexeme>
    decreases s,
{
    if s.len() == 0 {
        Seq::empty()
    } else {
        tokens_lexemes(s.drop_last()) + token_lexemes(s.last())
    }
}

/// The lexemes read so far into the groups still open: each opening bracket
/// with the tokens read after it.
pub open spec fn open_lexemes(st: Seq<(Bracket, Vec<Token>)>) -> Seq<Lexeme>
    decreases st.len(),
{
    if st.len() == 0 {
        Seq::empty()
    } else {
        open_lexemes(st.drop_last()) + seq![Lexeme::Open(st.last().0)] + tokens_lexemes(
            st.last().1@,
        )
    }
}

pub open spec fn brackets_of(st: Seq<(Bracket, Vec<Token>)>) -> Seq<Bracket> {
    st.map_values(|f: (Bracket, Vec<Token>)| f.0)
}

pub proof fn lemma_open_brackets_none(a: Seq<Lexeme>, b: Seq<Lexeme>)
    requires
        open_brackets(a) is None,
    ensures
        open_brackets(a + b) is None,
    decreases b.len(),
{
    if b.len() > 0 {
        lemma_open_brackets_none(a, b.drop_last());
        assert((a + b).drop_last() =~= a + b.drop_last());
    } else {
        assert(a + b =~= a);
    }
}

pub proof fn lemma_tokens_lexemes_push(s: Seq<Token>, t: Token)
    ensures
        tokens_lexemes(s.push(t)) == tokens_lexemes(s) + token_lexemes(t),
{
    assert(s.push(t).drop_last() =~= s);
}

pub proof fn lemma_open_lexemes_push(st: Seq<(Bracket, Vec<Token>)>, f: (Bracket, Vec<Token>))
    ensures
        open_lexemes(st.push(f)) == open_lexemes(st) + seq![Lexeme::Open(f.0)] + tokens_lexemes(f.1@),
        brackets_of(st.push(f)) == brackets_of(st).push(f.0),
{
    assert(st.push(f).drop_last() =~= st);
    assert(brackets_of(st.push(f)) =~= brackets_of(st).push(f.0));
}

fn in_class_exec(c: char, k: CharClass) -> (r: bool)
    ensures
        r == in_class(c, k),
{
    match k {
        CharClass::Digit => '0' <= c && c <= '9',
        CharClass::Ident => ('a' <= c && c <= 'z') || ('A' <= c && c <= 'Z') || c == '_' || ('0'
            <= c && c <= '9'),
        CharClass::NotQuote => c != '"',
    }
}

/// The end of the run of characters of class `k` that starts at `i`.
fn run_end(s: &str, i: usize, k: CharClass) -> (j: usize)
    requires
        i <= s@.len(),
    ensures
        j == i + run_len(s@, i as int, k),
{
    let n = s.unicode_len();
    let mut j = i;
    while j < n && in_class_exec(s.get_char(j), k)
        invariant
            n == s@.len(),
            i <= j <= n,
            i + run_len(s@, i as int, k) == j + run_len(s@, j as int, k),
        decreases n - j,
    {
        j = j + 1;
    }
    j
}

/// Adds `tok` to the innermost open group, or to the top level where none is open.
fn emit(root: &mut Vec<Token>, stack: &mut Vec<(Bracket, Vec<Token>)>, tok: Token)
    ensures
        brackets_of(final(stack)@) == brackets_of(old(stack)@),
        tokens_lexemes(final(root)@) + open_lexemes(final(stack)@) == tokens_lexemes(old(root)@)
            + open_lexemes(old(stack)@) + token_lexemes(tok),
{
    let ghost t = tok;
    match stack.pop() {
        None => {
            proof {
                lemma_tokens_lexemes_push(root@, tok);
            }
            root.push(tok);
            assert(open_lexemes(stack@) =~= Seq::<Lexeme>::empty());
            assert(tokens_lexemes(root@) + open_lexemes(stack@) =~= tokens_lexemes(old(root)@)
                + open_lexemes(old(stack)@) + token_lexemes(t));
        },
        Some((b, mut v)) => {
            let ghost rest = stack@;
            let ghost old_v = v@;
            proof {
                assert(old(stack)@ =~= rest.push((b, v)));
                lemma_open_lexemes_push(rest, (b, v));
                lemma_tokens_lexemes_push(v@, tok);
            }
            v.push(tok);
            let ghost f = (b, v);
            stack.push((b, v));
            proof {
                lemma_open_lexemes_push(rest, f);
                assert(stack@ =~= rest.push(f));
                assert(tokens_lexemes(root@) + open_lexemes(stack@) =~= tokens_lexemes(old(root)@)
                    + open_lexemes(old(stack)@) + token_lexemes(t));
            }
        },
    }
}

pub proof fn lemma_push_last<A>(s: Seq<A>, x: A)
    ensures
        s.push(x).drop_last() == s,
        s.push(x).last() == x,
{
    assert(s.push(x).drop_last() =~= s);
}

fn opening(c: char) -> (r: Option<Bracket>)
    ensures
        r matches Some(b) ==> punct(c) == Some(Lexeme::Open(b)),
        r is None ==> !(punct(c) matches Some(Lexeme::Open(_))),
{
    if c == '{' {
        Some(Bracket::Brace)
    } else if c == '(' {
        Some(Bracket::Paren)
    } else if c == '[' {
        Some(Bracket::Square)
    } else {
        None
    }
}

fn closing(c: char) -> (r: Option<Bracket>)
    ensures
        r matches Some(b) ==> punct(c) == Some(Lexeme::Close(b)),
        r is None ==> !(punct(c) matches Some(Lexeme::Close(_))),
{
    if c == '}' {
        Some(Bracket::Brace)
    } else if c == ')' {
        Some(Bracket::Paren)
    } else if c == ']' {
        Some(Bracket::Square)
    } else {
        None
    }
}

fn punct_atom(c: char) -> (r: Option<Atom>)
    ensures
        r matches Some(a) ==> punct(c) == Some(atom_lexeme(a)),
        r is None ==> (punct(c) is None || (punct(c) matches Some(Lexeme::Open(_))) || (punct(
            c,
        ) matches Some(Lexeme::Close(_)))),
{
    if c == '\n' {
        Some(Atom::NewLine)
    } else if c == ':' {
        Some(Atom::Colon)
    } else if c == ',' {
        Some(Atom::Comma)
    } else if c == '!' {
        Some(Atom::Bang)
    } else {
        None
    }
}

/// What the tokeniser reports on `s` from position `i`, where `open` holds the
/// brackets still open: success, or the message of the first failure.
pub open spec fn lex_outcome(s: Seq<char>, i: int, open: Seq<Bracket>) -> Result<(), Seq<char>>
    decreases s.len() - i,
{
    if !(0 <= i < s.len()) {
        if open.len() == 0 {
            Ok(())
        } else {
            Err("Unclosed bracket"@)
        }
    } else {
        proof {
            lemma_run_len_bound(s, i + 1, CharClass::Digit);
            lemma_run_len_bound(s, i + 1, CharClass::Ident);
            lemma_run_len_bound(s, i + 1, CharClass::NotQuote);
        }
        let c = s[i];
        if is_space(c) {
            lex_outcome(s, i + 1, open)
        } else if c == '"' {
            let j = i + 1 + run_len(s, i + 1, CharClass::NotQuote);
            if j < s.len() {
                lex_outcome(s, j + 1, open)
            } else {
                Err("Unterminated string"@)
            }
        } else if number_starts(s, i) {
            lex_outcome(s, i + 1 + run_len(s, i + 1, CharClass::Digit), open)
        } else if is_ident_start(c) {
            lex_outcome(s, i + 1 + run_len(s, i + 1, CharClass::Ident), open)
        } else {
            match punct(c) {
                Some(Lexeme::Open(b)) => lex_outcome(s, i + 1, open.push(b)),
                Some(Lexeme::Close(b)) => if open.len() == 0 {
                    Err("Unmatched closing bracket"@)
                } else if open.last() != b {
                    Err("Mismatched closing bracket"@)
                } else {
                    lex_outcome(s, i + 1, open.drop_last())
                },
                Some(_) => lex_outcome(s, i + 1, open),
                None => Err("Unexpected character"@),
            }
        }
    }
}

/// The tokeniser fails on `s` with the message `m`.
pub open spec fn lex_error_is(s: Seq<char>, m: Seq<char>) -> bool {
    lex_fails(s) && lex_outcome(s, 0, Seq::empty()) == Err::<(), Seq<char>>(m)
}

fn lex_err<T>(msg: &str) -> (r: Result<T, ParseError>)
    ensures
        r matches Err(e) && e.0@ == msg@,
{
    Err(ParseError(msg.to_owned()))
}

/// The lexemes read so far: the top-level tokens, then each group still open.
pub open spec fn read_lexemes(root: Seq<Token>, stack: Seq<(Bracket, Vec<Token>)>) -> Seq<Lexeme> {
    tokens_lexemes(root) + open_lexemes(stack)
}

/// The state of the tokeniser after the first `i` characters of `s`.
pub open spec fn lex_state(s: Seq<char>, i: int, root: Seq<Token>, stack: Seq<(Bracket, Vec<Token>)>) -> bool {
    &&& 0 <= i <= s.len()
    &&& lex_from(s, 0) == prepend(read_lexemes(root, stack), lex_from(s, i))
    &&& open_brackets(read_lexemes(root, stack)) == Some(brackets_of(stack))
    &&& lex_outcome(s, 0, Seq::empty()) == lex_outcome(s, i, brackets_of(stack))
}

/// The text of `s` cannot be tokenised.
pub open spec fn lex_fails(s: Seq<char>) -> bool {
    !(lex_from(s, 0) matches Some(l) && balanced(l))
}

pub proof fn lemma_advance(s: Seq<char>, i: int, j: int, l: Seq<Lexeme>, x: Lexeme)
    requires
        lex_from(s, i) == prepend(seq![x], lex_from(s, j)),
        lex_from(s, 0) == prepend(l, lex_from(s, i)),
    ensures
        lex_from(s, 0) == prepend(l.push(x), lex_from(s, j)),
        open_brackets(l) is None ==> lex_fails(s),
        open_brackets(l.push(x)) is None ==> lex_fails(s),
{
    lemma_prepend_push(l, x, lex_from(s, j));
    if let Some(rest) = lex_from(s, j) {
        if open_brackets(l.push(x)) is None {
            lemma_open_brackets_none(l.push(x), rest);
        }
        if open_brackets(l) is None {
            lemma_open_brackets_none(l, seq![x] + rest);
            assert(l + (seq![x] + rest) =~= l.push(x) + rest);
        }
    }
}

/// Reads a token that is not a bracket and adds it to the innermost open group.
fn emit_atom(
    s: Ghost<Seq<char>>,
    i: Ghost<int>,
    j: usize,
    root: &mut Vec<Token>,
    stack: &mut Vec<(Bracket, Vec<Token>)>,
    a: Atom,
)
    requires
        lex_state(s@, i@, old(root)@, old(stack)@),
        j <= s@.len(),
        lex_from(s@, i@) == prepend(seq![atom_lexeme(a)], lex_from(s@, j as int)),
        lex_outcome(s@, i@, brackets_of(old(stack)@)) == lex_outcome(s@, j as int, brackets_of(old(stack)@)),
    ensures
        lex_state(s@, j as int, final(root)@, final(stack)@),
{
    let ghost x = atom_lexeme(a);
    let ghost l = read_lexemes(root@, stack@);
    proof {
        lemma_advance(s@, i@, j as int, l, x);
        lemma_push_last(l, x);
    }
    emit(root, stack, Token::Atom(a));
    assert(read_lexemes(root@, stack@) =~= l.push(x));
}

/// Reads a string, number or identifier that starts at `i`.
fn lex_word(input: &str, i: usize, root: &mut Vec<Token>, stack: &mut Vec<(Bracket, Vec<Token>)>) -> (r: Result<usize, ParseError>)
    requires
        i < input@.len(),
        lex_state(input@, i as int, old(root)@, old(stack)@),
        input@[i as int] == '"' || number_starts(input@, i as int) || is_ident_start(input@[i as int]),
    ensures
        match r {
            Ok(j) => i < j && lex_state(input@, j as int, final(root)@, final(stack)@),
            Err(e) => lex_error_is(input@, e.0@),
        },
{
    let ghost s = input@;
    let n = input.unicode_len();
    let c = input.get_char(i);
    proof {
        lemma_run_len_bound(s, i + 1, CharClass::Digit);
        lemma_run_len_bound(s, i + 1, CharClass::Ident);
        lemma_run_len_bound(s, i + 1, CharClass::NotQuote);
    }
    if c == '"' {
        let j = run_end(input, i + 1, CharClass::NotQuote);
        if j >= n {
            return lex_err("Unterminated string");
        }
        let text = input.substring_char(i + 1, j).to_owned();
        emit_atom(Ghost(s), Ghost(i as int), j + 1, root, stack, Atom::String(text));
        Ok(j + 1)
    } else if ('0' <= c && c <= '9') || (c == '-' && i + 1 < n && in_class_exec(
        input.get_char(i + 1),
        CharClass::Digit,
    )) {
        let j = run_end(input, i + 1, CharClass::Digit);
        let text = input.substring_char(i, j).to_owned();
        emit_atom(Ghost(s), Ghost(i as int), j, root, stack, Atom::Number(text));
        Ok(j)
    } else {
        let j = run_end(input, i + 1, CharClass::Ident);
        let text = input.substring_char(i, j).to_owned();
        emit_atom(Ghost(s), Ghost(i as int), j, root, stack, Atom::Name(text));
        Ok(j)
    }
}

/// Reads an opening bracket: a new group starts.
fn lex_open(s: Ghost<Seq<char>>, i: usize, stack: &mut Vec<(Bracket, Vec<Token>)>, root: &Vec<Token>, b: Bracket)
    requires
        lex_state(s@, i as int, root@, old(stack)@),
        i < s@.len(),
        lex_from(s@, i as int) == prepend(seq![Lexeme::Open(b)], lex_from(s@, i + 1)),
        punct(s@[i as int]) == Some(Lexeme::Open(b)),
    ensures
        lex_state(s@, i + 1, root@, final(stack)@),
{
    let ghost x = Lexeme::Open(b);
    let ghost l = read_lexemes(root@, stack@);
    let empty: Vec<Token> = Vec::new();
    let ghost f = (b, empty);
    proof {
        lemma_advance(s@, i as int, i + 1, l, x);
        lemma_push_last(l, x);
        lemma_open_lexemes_push(stack@, f);
    }
    stack.push((b, empty));
    assert(f.1@ =~= Seq::<Token>::empty());
    assert(read_lexemes(root@, stack@) =~= l.push(x));
}

/// Reads a closing bracket: the innermost group, which it must close, becomes
/// one token of the group around it.
fn lex_close(
    s: Ghost<Seq<char>>,
    i: usize,
    root: &mut Vec<Token>,
    stack: &mut Vec<(Bracket, Vec<Token>)>,
    b: Bracket,
) -> (r: Result<(), ParseError>)
    requires
        lex_state(s@, i as int, old(root)@, old(stack)@),
        i < s@.len(),
        lex_from(s@, i as int) == prepend(seq![Lexeme::Close(b)], lex_from(s@, i + 1)),
        punct(s@[i as int]) == Some(Lexeme::Close(b)),
    ensures
        match r {
            Ok(_) => lex_state(s@, i + 1, final(root)@, final(stack)@),
            Err(e) => lex_error_is(s@, e.0@),
        },
{
    let ghost x = Lexeme::Close(b);
    let ghost l = read_lexemes(root@, stack@);
    let ghost old_stack = stack@;
    proof {
        lemma_advance(s@, i as int, i + 1, l, x);
        lemma_push_last(l, x);
    }
    match stack.pop() {
        None => lex_err("Unmatched closing bracket"),
        Some((top, v)) => {
            proof {
                assert(old_stack =~= stack@.push((top, v)));
                lemma_open_lexemes_push(stack@, (top, v));
                lemma_push_last(brackets_of(stack@), top);
            }
            let ghost inner = brackets_of(stack@);
            if top != b {
                return lex_err("Mismatched closing bracket");
            }
            emit(root, stack, Token::Tree(b, v));
            assert(read_lexemes(root@, stack@) =~= l.push(x));
            assert(open_brackets(l.push(x)) == Some(inner));
            Ok(())
        },
    }
}

/// Splits `input` into tokens, grouping each bracket pair with what it encloses.
/// Fails where a character cannot start a token, a string is not closed, or the
/// brackets do not pair up.
pub fn tokenise(input: &str) -> (r: Result<Vec<Token>, ParseError>)
    ensures
        r is Ok <==> !lex_fails(input@),
        r matches Ok(ts) ==> lex_from(input@, 0) == Some(tokens_lexemes(ts@)),
        r matches Err(e) ==> lex_error_is(input@, e.0@),
{
    let ghost s = input@;
    let n = input.unicode_len();
    let mut i: usize = 0;
    let mut root: Vec<Token> = Vec::new();
    let mut stack: Vec<(Bracket, Vec<Token>)> = Vec::new();
    assert(read_lexemes(root@, stack@) =~= Seq::<Lexeme>::empty());
    assert(brackets_of(stack@) =~= Seq::<Bracket>::empty());
    assert(prepend(Seq::<Lexeme>::empty(), lex_from(s, 0)) == lex_from(s, 0)) by {
        if let Some(l) = lex_from(s, 0) {
            assert(Seq::<Lexeme>::empty() + l =~= l);
        }
    }
    while i < n
        invariant
            n == s.len(),
            s == input@,
            lex_state(s, i as int, root@, stack@),
        decreases n - i,
    {
        let c = input.get_char(i);
        if c == ' ' || c == '\t' || c == '\r' {
            i = i + 1;
        } else if c == '"' || ('0' <= c && c <= '9') || (c == '-' && i + 1 < n && in_class_exec(
            input.get_char(i + 1),
            CharClass::Digit,
        )) || ('a' <= c && c <= 'z') || ('A' <= c && c <= 'Z') || c == '_' {
            i = lex_word(input, i, &mut root, &mut stack)?;
        } else if let Some(a) = punct_atom(c) {
            emit_atom(Ghost(s), Ghost(i as int), i + 1, &mut root, &mut stack, a);
            i = i + 1;
        } else if let Some(b) = opening(c) {
            lex_open(Ghost(s), i, &mut stack, &root, b);
            i = i + 1;
        } else if let Some(b) = closing(c) {
            lex_close(Ghost(s), i, &mut root, &mut stack, b)?;
            i = i + 1;
        } else {
            return lex_err("Unexpected character");
        }
    }
    let ghost l = read_lexemes(root@, stack@);
    assert(l + Seq::<Lexeme>::empty() =~= l);
    if stack.len() > 0 {
        assert(brackets_of(stack@).len() > 0);
        return lex_err("Unclosed bracket");
    }
    assert(open_lexemes(stack@) =~= Seq::<Lexeme>::empty());
    assert(tokens_lexemes(root@) =~= l);
    assert(brackets_of(stack@) =~= Seq::<Bracket>::empty());
    Ok(root)
}

} // verus!
