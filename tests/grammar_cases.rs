use qlparse::ast::{Field, Name, Query, Value};
use qlparse::lexer::tokenise;
use qlparse::parser::{keyword, parse_query, Parser};
use qlparse::grammar::Keyword;
use qlparse::text::trim;
use qlparse::token::{Atom, Bracket, ParseError, Token};

fn name(s: &str) -> Name {
    Name(s.to_owned())
}

fn name_field(s: &str) -> Field {
    Field {
        name: name(s),
        alias: None,
        args: vec![],
        fields: vec![],
    }
}

fn fields_of(text: &str) -> Vec<Field> {
    match parse_query(text).unwrap() {
        Query::Query(fs) => fs,
        Query::Mutation => panic!("expected a query"),
    }
}

#[test]
fn blank_scopes_give_empty_lists() {
    assert_eq!(fields_of("{}"), vec![]);
    assert_eq!(fields_of("{ \n\n }"), vec![]);
    let tokens = tokenise("( \n )").unwrap();
    let mut parser = Parser::new(&tokens).unwrap();
    assert_eq!(parser.maybe_parse_args().unwrap(), vec![]);
    let tokens = tokenise("[\n\n]").unwrap();
    let mut parser = Parser::new(&tokens).unwrap();
    assert_eq!(parser.parse_value().unwrap(), Value::Array(vec![]));
    let tokens = tokenise("\n \n").unwrap();
    let mut parser = Parser::new(&tokens).unwrap();
    assert_eq!(parser.parse_field_list().unwrap(), vec![]);
}

#[test]
fn separators_are_interchangeable() {
    let two = vec![name_field("a"), name_field("b")];
    assert_eq!(fields_of("{a,b}"), two);
    assert_eq!(fields_of("{a\nb}"), two);
    assert_eq!(fields_of("{a, b\n}"), two);
    assert_eq!(fields_of("{a b}"), two);
    assert_eq!(fields_of("{a,\n\n b,}"), two);
}

#[test]
fn doubled_comma_is_an_error() {
    assert!(parse_query("{a,,b}").is_err());
    assert!(parse_query("{a\n,b}").is_err());
}

#[test]
fn ignore_newlines_on_no_newline_moves_nothing() {
    let tokens = tokenise("foo").unwrap();
    let mut parser = Parser::new(&tokens).unwrap();
    parser.ignore_newlines();
    assert_eq!(parser.remaining(), 1);
    let tokens = tokenise("\n\n").unwrap();
    let mut parser = Parser::new(&tokens).unwrap();
    parser.ignore_newlines();
    assert_eq!(parser.remaining(), 0);
}

#[test]
fn values_of_each_kind() {
    let tokens = tokenise("null 42 \"foo\" [null, null, foo, \"bar\"] -7").unwrap();
    let mut parser = Parser::new(&tokens).unwrap();
    assert_eq!(parser.parse_value().unwrap(), Value::Null);
    assert_eq!(parser.parse_value().unwrap(), Value::Name(name("42")));
    assert_eq!(parser.parse_value().unwrap(), Value::String("foo".to_owned()));
    assert_eq!(
        parser.parse_value().unwrap(),
        Value::Array(vec![
            Value::Null,
            Value::Null,
            Value::Name(name("foo")),
            Value::String("bar".to_owned())
        ])
    );
    assert_eq!(parser.parse_value().unwrap(), Value::Name(name("-7")));
    assert!(parser.parse_value().is_err());
}

#[test]
fn number_cannot_start_a_list_item() {
    let tokens = tokenise("[1, 2]").unwrap();
    let mut parser = Parser::new(&tokens).unwrap();
    assert!(parser.parse_value().is_err());
}

#[test]
fn value_from_punctuation_is_an_error() {
    let tokens = tokenise(": (x)").unwrap();
    let mut parser = Parser::new(&tokens).unwrap();
    assert!(parser.parse_value().is_err());
    assert!(parser.parse_value().is_err());
}

#[test]
fn human_query() {
    let fields = fields_of("{ human(id: 1002) { name, appearsIn, id } }");
    assert_eq!(
        fields,
        vec![Field {
            name: name("human"),
            alias: None,
            args: vec![(name("id"), Value::Name(name("1002")))],
            fields: vec![name_field("name"), name_field("appearsIn"), name_field("id")],
        }]
    );
}

#[test]
fn eat_at_end_or_on_other_token_fails() {
    let tokens = tokenise("foo").unwrap();
    let mut parser = Parser::new(&tokens).unwrap();
    assert!(parser.eat(Atom::Bang).is_err());
    assert_eq!(parser.remaining(), 0);
    assert!(parser.eat(Atom::Bang).is_err());
    parser.maybe_eat(Atom::Comma);
    assert_eq!(parser.remaining(), 0);
}

#[test]
fn maybe_eat_leaves_other_tokens() {
    let tokens = tokenise("foo").unwrap();
    let mut parser = Parser::new(&tokens).unwrap();
    parser.maybe_eat(Atom::Name("bar".to_owned()));
    assert_eq!(parser.remaining(), 1);
    parser.maybe_eat(Atom::Name("foo".to_owned()));
    assert_eq!(parser.remaining(), 0);
}

#[test]
fn mutation_is_accepted_without_body() {
    assert_eq!(parse_query("mutation").unwrap(), Query::Mutation);
    assert_eq!(parse_query("mutation { anything(x: ) ,, }").unwrap(), Query::Mutation);
}

#[test]
fn malformed_field_starts_fail() {
    assert!(parse_query("{1}").is_err());
    assert!(parse_query("{,}").is_err());
    assert!(parse_query("{\"s\"}").is_err());
}

#[test]
fn trailing_tokens_are_ignored() {
    assert_eq!(parse_query("{} garbage").unwrap(), Query::Query(vec![]));
    assert_eq!(parse_query("query { a } b c").unwrap(), Query::Query(vec![name_field("a")]));
}

#[test]
fn query_keyword_needs_a_brace_group() {
    assert_eq!(parse_query("query { a }").unwrap(), Query::Query(vec![name_field("a")]));
    assert!(parse_query("query").is_err());
    assert!(parse_query("query (a)").is_err());
    assert!(parse_query("other { a }").is_err());
    assert!(parse_query("").is_err());
    assert!(parse_query(": {}").is_err());
}

#[test]
fn newlines_around_the_root_are_skipped() {
    assert_eq!(parse_query("\n\n { a }\n").unwrap(), Query::Query(vec![name_field("a")]));
}

#[test]
fn argument_needs_a_colon() {
    assert!(parse_query("{ a(x 1) }").is_err());
    assert!(parse_query("{ a(x:) }").is_err());
    assert!(parse_query("{ a(1: 2) }").is_err());
}

#[test]
fn arguments_keep_order_and_duplicates() {
    let fields = fields_of("{ a(x: 1\n x: \"two\", y: [b]) }");
    assert_eq!(
        fields[0].args,
        vec![
            (name("x"), Value::Name(name("1"))),
            (name("x"), Value::String("two".to_owned())),
            (name("y"), Value::Array(vec![Value::Name(name("b"))])),
        ]
    );
}

#[test]
fn tokenise_groups_brackets() {
    let tokens = tokenise("a (b: [c]) {}").unwrap();
    assert_eq!(tokens.len(), 3);
    assert_eq!(tokens[0], Token::Atom(Atom::Name("a".to_owned())));
    assert_eq!(
        tokens[1],
        Token::Tree(
            Bracket::Paren,
            vec![
                Token::Atom(Atom::Name("b".to_owned())),
                Token::Atom(Atom::Colon),
                Token::Tree(Bracket::Square, vec![Token::Atom(Atom::Name("c".to_owned()))]),
            ]
        )
    );
    assert_eq!(tokens[2], Token::Tree(Bracket::Brace, vec![]));
}

#[test]
fn tokenise_atoms() {
    let tokens = tokenise("x_1 -12 \"a b\" : , ! \n\t\r").unwrap();
    assert_eq!(
        tokens,
        vec![
            Token::Atom(Atom::Name("x_1".to_owned())),
            Token::Atom(Atom::Number("-12".to_owned())),
            Token::Atom(Atom::String("a b".to_owned())),
            Token::Atom(Atom::Colon),
            Token::Atom(Atom::Comma),
            Token::Atom(Atom::Bang),
            Token::Atom(Atom::NewLine),
        ]
    );
}

#[test]
fn tokenise_errors() {
    assert!(tokenise("\"open").is_err());
    assert!(tokenise("{").is_err());
    assert!(tokenise("}").is_err());
    assert!(tokenise("(]").is_err());
    assert!(tokenise("a # b").is_err());
    assert!(tokenise("-").is_err());
    assert!(parse_query("{ a ").is_err());
}

#[test]
fn keywords_are_recognised() {
    assert_eq!(keyword(&"query".to_owned()), Some(Keyword::Query));
    assert_eq!(keyword(&"mutation".to_owned()), Some(Keyword::Mutation));
    assert_eq!(keyword(&"null".to_owned()), Some(Keyword::Null));
    assert_eq!(keyword(&"nul".to_owned()), None);
    assert_eq!(keyword(&"Query".to_owned()), None);
}

#[test]
fn white_space_at_both_ends_is_trimmed() {
    assert_eq!(parse_query("mutation\x0C").unwrap(), Query::Mutation);
    assert_eq!(parse_query("\u{a0}\x0B{ a }\u{3000}\u{85}").unwrap(), Query::Query(vec![name_field("a")]));
    assert_eq!(parse_query(" \t\n{ a }\n\r\n").unwrap(), Query::Query(vec![name_field("a")]));
}

#[test]
fn trim_removes_only_the_ends() {
    assert_eq!(trim("  a b \n"), "a b");
    assert_eq!(trim("\u{2003}x\u{2029}"), "x");
    assert_eq!(trim(" \n\t "), "");
    assert_eq!(trim(""), "");
    assert_eq!(trim("ab"), "ab");
}

#[test]
fn tokeniser_error_is_returned() {
    assert_eq!(parse_query("{ a ").unwrap_err(), ParseError("Unclosed bracket".to_owned()));
    assert_eq!(parse_query("{ a ]").unwrap_err(), ParseError("Mismatched closing bracket".to_owned()));
    assert_eq!(parse_query("}").unwrap_err(), ParseError("Unmatched closing bracket".to_owned()));
    assert_eq!(parse_query("{ a(x: \"b) }").unwrap_err(), ParseError("Unterminated string".to_owned()));
    assert_eq!(parse_query("{ a # }").unwrap_err(), ParseError("Unexpected character".to_owned()));
}

#[test]
fn list_productions_read_the_whole_scope() {
    let tokens = tokenise("a, b\n c").unwrap();
    let mut parser = Parser::new(&tokens).unwrap();
    assert_eq!(parser.parse_field_list().unwrap().len(), 3);
    assert_eq!(parser.remaining(), 0);
    let tokens = tokenise("mutation { a }").unwrap();
    let mut parser = Parser::new(&tokens).unwrap();
    assert_eq!(parser.parse_query().unwrap(), Query::Mutation);
    assert_eq!(parser.remaining(), 1);
    let tokens = tokenise("query { a } b").unwrap();
    let mut parser = Parser::new(&tokens).unwrap();
    assert!(parser.parse_query().is_ok());
    assert_eq!(parser.remaining(), 1);
}
