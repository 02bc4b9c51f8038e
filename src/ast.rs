use vstd::prelude::*;

verus! {

/// An identifier; equality is by its text.
#[derive(Debug, PartialEq, Eq)]
pub struct Name(pub String);

/// A literal in argument position. Numeric literals are held as `Name` with their text.
#[derive(Debug, PartialEq, Eq)]
pub enum Value {
    Null,
    Name(Name),
    String(String),
    Array(Vec<Value>),
}

/// A named selection with its arguments (in source order) and its sub-selections.
#[derive(Debug, PartialEq, Eq)]
pub struct Field {
    pub name: Name,
    pub alias: Option<Name>,
    pub args: Vec<(Name, Value)>,
    pub fields: Vec<Field>,
}

/// A parsed document: a query with its top-level selections, or a mutation.
#[derive(Debug, PartialEq, Eq)]
pub enum Query {
    Query(Vec<Field>),
    Mutation,
}

/// The mathematical model of a `Value`.
pub enum ValueModel {
    Null,
    Name(Seq<char>),
    Str(Seq<char>),
    Array(Seq<ValueModel>),
}

/// The mathematical model of a `Field`.
pub struct FieldModel {
    pub name: Seq<char>,
    pub alias: Option<Seq<char>>,
    pub args: Seq<(Seq<char>, ValueModel)>,
    pub fields: Seq<FieldModel>,
}

/// The mathematical model of a `Query`.
pub enum QueryModel {
    Query(Seq<FieldModel>),
    Mutation,
}

pub open spec fn value_model(v: Value) -> ValueModel
    decreases v,
{
    match v {
        Value::Null => ValueModel::Null,
        Value::Name(n) => ValueModel::Name(n.0@),
        Value::String(s) => ValueModel::Str(s@),
        Value::Array(a) => ValueModel::Array(values_model(a@)),
    }
}

pub open spec fn values_model(s: Seq<Value>) -> Seq<ValueModel>
    decreases s,
{
    if s.len() == 0 {
        Seq::empty()
    } else {
        values_model(s.drop_last()).push(value_model(s.last()))
    }
}

pub proof fn lemma_values_model_push(s: Seq<Value>, v: Value)
    ensures
        values_model(s.push(v)) == values_model(s).push(value_model(v)),
{
    assert(s.push(v).drop_last() =~= s);
}

pub open spec fn arg_model(a: (Name, Value)) -> (Seq<char>, ValueModel) {
    (a.0.0@, value_model(a.1))
}

pub open spec fn args_model(s: Seq<(Name, Value)>) -> Seq<(Seq<char>, ValueModel)>
    decreases s.len(),
{
    if s.len() == 0 {
        Seq::empty()
    } else {
        args_model(s.drop_last()).push(arg_model(s.last()))
    }
}

pub proof fn lemma_args_model_push(s: Seq<(Name, Value)>, a: (Name, Value))
    ensures
        args_model(s.push(a)) == args_model(s).push(arg_model(a)),
{
    assert(s.push(a).drop_last() =~= s);
}

pub open spec fn field_model(f: Field) -> FieldModel
    decreases f,
{
    FieldModel {
        name: f.name.0@,
        alias: match f.alias {
            Some(a) => Some(a.0@),
            None => None,
        },
        args: args_model(f.args@),
        fields: fields_model(f.fields@),
    }
}

pub open spec fn fields_model(s: Seq<Field>) -> Seq<FieldModel>
    decreases s,
{
    if s.len() == 0 {
        Seq::empty()
    } else {
        fields_model(s.drop_last()).push(field_model(s.last()))
    }
}

pub proof fn lemma_fields_model_push(s: Seq<Field>, f: Field)
    ensures
        fields_model(s.push(f)) == fields_model(s).push(field_model(f)),
{
    assert(s.push(f).drop_last() =~= s);
}

pub open spec fn query_model(q: Query) -> QueryModel {
    match q {
        Query::Query(fs) => QueryModel::Query(fields_model(fs@)),
        Query::Mutation => QueryModel::Mutation,
    }
}

impl View for Value {
    type V = ValueModel;

    open spec fn view(&self) -> ValueModel {
        value_model(*self)
    }
}

impl View for Field {
    type V = FieldModel;

    open spec fn view(&self) -> FieldModel {
        field_model(*self)
    }
}

impl View for Query {
    type V = QueryModel;

    open spec fn view(&self) -> QueryModel {
        query_model(*self)
    }
}

} // verus!
