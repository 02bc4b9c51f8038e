use qlparse::ast::{Field, Name, Query, Value};
use qlparse::lexer::tokenise;
use qlparse::parser::Parser;
use qlparse::token::{Atom, ParseError, Token};

fn assert_atom(tok: &Token) -> &Atom {
    match tok {
        Token::Atom(atom) => atom,
        _ => panic!("Non-atomic token"),
    }
}

fn name(s: &str) -> Name {
    Name(s.to_owned())
}

fn name_field(s: &str) -> Field {
    Field {
        name: name(s),
        alias: None,
        args: vec![],
        fields: vec![],
    }
}

#[test]
fn test_bump() {
    let tokens = tokenise("foo bar").unwrap();
    let mut parser = Parser::new(&tokens).unwrap();
    assert_eq!(parser.remaining(), 2);
    parser.bump();
    assert_eq!(parser.remaining(), 1);
    parser.bump();
    assert_eq!(parser.remaining(), 0);
}

#[test]
fn test_maybe_eat() {
    let tokens = tokenise("foo bar!").unwrap();
    let mut parser = Parser::new(&tokens).unwrap();
    assert_eq!(assert_atom(parser.peek_tok().unwrap()), &Atom::Name("foo".to_owned()));
    parser.maybe_eat(Atom::Name("bar".to_owned()));
    assert_eq!(assert_atom(parser.next_tok().unwrap()), &Atom::Name("foo".to_owned()));
    parser.maybe_eat(Atom::Name("bar".to_owned()));
    parser.maybe_eat(Atom::Bang);
}

#[test]
fn test_eat() {
    let tokens = tokenise("foo bar!").unwrap();
    let mut parser = Parser::new(&tokens).unwrap();
    assert_eq!(assert_atom(parser.next_tok().unwrap()), &Atom::Name("foo".to_owned()));
    parser.eat(Atom::Name("bar".to_owned())).unwrap();
    parser.eat(Atom::Bang).unwrap();
}

#[test]
fn test_bad_eat() {
    let tokens = tokenise("foo bar!").unwrap();
    let mut parser = Parser::new(&tokens).unwrap();
    match parser.eat(Atom::Name("bar".to_owned())) {
        Err(ParseError(_)) => {}
        result => panic!("Found: {:?}", result),
    }
}

#[test]
fn test_ignore_newlines() {
    let tokens = tokenise("foo \n\n\n\n\n bar").unwrap();
    let mut parser = Parser::new(&tokens).unwrap();
    assert_eq!(assert_atom(parser.peek_tok().unwrap()), &Atom::Name("foo".to_owned()));
    parser.ignore_newlines();
    assert_eq!(assert_atom(parser.next_tok().unwrap()), &Atom::Name("foo".to_owned()));
    parser.ignore_newlines();
    assert_eq!(assert_atom(parser.next_tok().unwrap()), &Atom::Name("bar".to_owned()));
}

#[test]
fn test_parse_name() {
    let tokens = tokenise("foo bar!").unwrap();
    let mut parser = Parser::new(&tokens).unwrap();
    assert_eq!(parser.parse_name().unwrap().0, "foo");
    assert_eq!(parser.parse_name().unwrap().0, "bar");
    parser.eat(Atom::Bang).unwrap();
}

#[test]
fn test_parse_value() {
    let tokens = tokenise("null \"foo\" 42 bar [null, null, foo, \"bar\"]").unwrap();
    let mut parser = Parser::new(&tokens).unwrap();
    assert_eq!(parser.parse_value().unwrap(), Value::Null);
    assert_eq!(parser.parse_value().unwrap(), Value::String("foo".to_owned()));
    assert_eq!(parser.parse_value().unwrap(), Value::Name(name("42")));
    assert_eq!(parser.parse_value().unwrap(), Value::Name(name("bar")));
    assert_eq!(
        parser.parse_value().unwrap(),
        Value::Array(vec![
            Value::Null,
            Value::Null,
            Value::Name(name("foo")),
            Value::String("bar".to_owned())
        ])
    );
}

#[test]
fn test_parse_args() {
    let tokens = tokenise("  ").unwrap();
    let mut parser = Parser::new(&tokens).unwrap();
    assert_eq!(parser.maybe_parse_args().unwrap(), vec![]);

    let tokens = tokenise("(x: 42, foo: \"bar\")").unwrap();
    let mut parser = Parser::new(&tokens).unwrap();
    assert_eq!(
        parser.maybe_parse_args().unwrap(),
        vec![
            (name("x"), Value::Name(name("42"))),
            (name("foo"), Value::String("bar".to_owned()))
        ]
    );
}

#[test]
fn test_parse_fields() {
    let tokens = tokenise("").unwrap();
    let mut parser = Parser::new(&tokens).unwrap();
    assert_eq!(parser.maybe_parse_fields().unwrap(), vec![]);

    let tokens = tokenise("{}").unwrap();
    let mut parser = Parser::new(&tokens).unwrap();
    assert_eq!(parser.maybe_parse_fields().unwrap(), vec![]);

    let tokens = tokenise(
        r"{ a, foo, bar(x: 42)

            baz {
                a
                b
            }}",
    )
    .unwrap();
    let mut parser = Parser::new(&tokens).unwrap();
    assert_eq!(
        parser.maybe_parse_fields().unwrap(),
        vec![
            name_field("a"),
            name_field("foo"),
            Field {
                name: name("bar"),
                alias: None,
                args: vec![(name("x"), Value::Name(name("42")))],
                fields: vec![],
            },
            Field {
                name: name("baz"),
                alias: None,
                args: vec![],
                fields: vec![name_field("a"), name_field("b")],
            },
        ]
    );
}

#[test]
fn test_parse_query() {
    let tokens = tokenise(
        r"{
          human(id: 1002) {
            name,
            appearsIn,
            id
          }
        }",
    )
    .unwrap();
    let mut parser = Parser::new(&tokens).unwrap();
    let result = parser.parse_query().unwrap();
    if let Query::Query(fields) = result {
        assert_eq!(fields.len(), 1);
        assert_eq!(&*fields[0].name.0, "human");
        assert_eq!(fields[0].args.len(), 1);
        assert_eq!(&fields[0].args[0], &(name("id"), Value::Name(name("1002"))));
        assert_eq!(fields[0].fields.len(), 3);
        assert_eq!(fields[0].fields[0].name.0, "name");
        assert_eq!(fields[0].fields[1].name.0, "appearsIn");
        assert_eq!(fields[0].fields[2].name.0, "id");
    } else {
        panic!();
    }
}
