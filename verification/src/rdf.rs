//! Triples as the pipeline reads them, and the N-Triples notation of RDF terms.

use crate::error::{ErrorKind, Failure};
use rio_api::parser::TriplesParser;
use vstd::prelude::*;
use vstd::string::*;

verus! {

/// `<iri>`: the notation of an IRI.
pub open spec fn named_node_form(iri: Seq<char>) -> Seq<char> {
    seq!['<'] + iri + seq!['>']
}

/// `_:id`: the notation of a blank node.
pub open spec fn blank_node_form(id: Seq<char>) -> Seq<char> {
    seq!['_', ':'] + id
}

/// How one character of a literal's lexical form is written between quotes.
pub open spec fn escaped_char(c: char) -> Seq<char> {
    if c == '\n' {
        seq!['\\', 'n']
    } else if c == '\r' {
        seq!['\\', 'r']
    } else if c == '"' {
        seq!['\\', '"']
    } else if c == '\\' {
        seq!['\\', '\\']
    } else {
        seq![c]
    }
}

/// A lexical form with line breaks, quotes and backslashes escaped.
pub open spec fn escaped_text(value: Seq<char>) -> Seq<char>
    decreases value.len(),
{
    if value.len() == 0 {
        Seq::empty()
    } else {
        escaped_text(value.drop_last()) + escaped_char(value.last())
    }
}

/// `"value"^^<datatype>`: the notation of a typed literal.
pub open spec fn typed_literal_form(value: Seq<char>, datatype: Seq<char>) -> Seq<char> {
    seq!['"'] + escaped_text(value) + seq!['"', '^', '^'] + named_node_form(datatype)
}

/// Subject, predicate and object, each in its notation, separated by blanks.
pub open spec fn triple_form(subject: Seq<char>, predicate: Seq<char>, object: Seq<char>) -> Seq<
    char,
> {
    subject + seq![' '] + predicate + seq![' '] + object
}

/// A triple followed by the full stop and line break that end a statement.
pub open spec fn statement_form(subject: Seq<char>, predicate: Seq<char>, object: Seq<char>) -> Seq<
    char,
> {
    triple_form(subject, predicate, object) + seq![' ', '.', '\n']
}

/// Formats a `rio_api::model::NamedNode`. Trusted: its `Display` writes the
/// IRI between angle brackets.
#[verifier::external_body]
pub(crate) fn named_node_text(iri: &str) -> (r: String)
    ensures
        r@ == named_node_form(iri@),
{
    rio_api::model::NamedNode { iri }.to_string()
}

/// Formats a `rio_api::model::BlankNode`. Trusted: its `Display` writes `_:`
/// and the identifier.
#[verifier::external_body]
pub(crate) fn blank_node_text(id: &str) -> (r: String)
    ensures
        r@ == blank_node_form(id@),
{
    rio_api::model::BlankNode { id }.to_string()
}

/// Formats a `rio_api::model::Literal::Typed`. Trusted: its `Display` writes
/// the escaped lexical form between quotes, `^^` and the datatype as an IRI.
#[verifier::external_body]
pub(crate) fn typed_literal_text(value: &str, datatype: &str) -> (r: String)
    ensures
        r@ == typed_literal_form(value@, datatype@),
{
    let datatype = rio_api::model::NamedNode { iri: datatype };
    rio_api::model::Literal::Typed { value, datatype }.to_string()
}

/// Writes one statement: the three terms, already in their notation, and the
/// closing full stop.
pub fn statement_text(subject: &str, predicate: &str, object: &str) -> (r: String)
    ensures
        r@ == statement_form(subject@, predicate@, object@),
{
    let mut r = String::from_str(subject);
    r.append(" ");
    r.append(predicate);
    r.append(" ");
    r.append(object);
    r.append(" .\n");
    proof {
        reveal_strlit(" ");
        reveal_strlit(" .\n");
        assert(r@ =~= statement_form(subject@, predicate@, object@));
    }
    r
}

/// A triple of the input, each term held in its N-Triples notation.
#[derive(Debug, PartialEq, Eq)]
pub struct Triple {
    /// The subject: an IRI in angle brackets, or a blank node.
    pub subject: String,
    /// The predicate: an IRI in angle brackets.
    pub predicate: String,
    /// The object in its notation.
    pub object: String,
    /// The lexical form of the object where it is a typed literal.
    pub typed_value: Option<String>,
}

/// What a [`Triple`] holds.
pub struct TripleView {
    pub subject: Seq<char>,
    pub predicate: Seq<char>,
    pub object: Seq<char>,
    pub typed_value: Option<Seq<char>>,
}

impl TripleView {
    /// The triple written on one line, without a closing full stop.
    pub open spec fn text(self) -> Seq<char> {
        triple_form(self.subject, self.predicate, self.object)
    }
}

impl View for Triple {
    type V = TripleView;

    open spec fn view(&self) -> TripleView {
        TripleView {
            subject: self.subject@,
            predicate: self.predicate@,
            object: self.object@,
            typed_value: match self.typed_value {
                Some(v) => Some(v@),
                None => None,
            },
        }
    }
}

impl Clone for Triple {
    fn clone(&self) -> (r: Self)
        ensures
            r@ == self@,
    {
        Triple {
            subject: self.subject.clone(),
            predicate: self.predicate.clone(),
            object: self.object.clone(),
            typed_value: match &self.typed_value {
                Some(v) => Some(v.clone()),
                None => None,
            },
        }
    }
}

impl Triple {
    /// A triple from its parts.
    pub fn new(subject: String, predicate: String, object: String, typed_value: Option<String>) -> (r:
        Self)
        ensures
            r@ == (TripleView {
                subject: subject@,
                predicate: predicate@,
                object: object@,
                typed_value: match typed_value {
                    Some(v) => Some(v@),
                    None => None,
                },
            }),
    {
        Triple { subject, predicate, object, typed_value }
    }

    /// The triple written on one line, without a closing full stop.
    pub fn to_string(&self) -> (r: String)
        ensures
            r@ == self@.text(),
    {
        let mut r = self.subject.clone();
        r.append(" ");
        r.append(self.predicate.as_str());
        r.append(" ");
        r.append(self.object.as_str());
        proof {
            reveal_strlit(" ");
            assert(r@ =~= self@.text());
        }
        r
    }
}

/// The views of a sequence of triples.
pub open spec fn triple_views(triples: Seq<Triple>) -> Seq<TripleView> {
    triples.map_values(|t: Triple| t@)
}

/// The error of `rio_turtle`'s parser, carried through unread.
#[verifier::external_type_specification]
#[verifier::external_body]
pub struct ExTurtleError(rio_turtle::TurtleError);

/// The triples that `rio_turtle::TurtleParser` reads from a document, in the
/// order of the document and without a base IRI; nothing where the document
/// is not well-formed Turtle.
pub uninterp spec fn parsed_turtle(text: Seq<char>) -> Option<Seq<TripleView>>;

/// Runs `rio_turtle::TurtleParser::parse_all` over the document and keeps
/// each triple in the notation of `rio_api`'s `Display`. Trusted: the outcome
/// depends on the document alone.
#[verifier::external_body]
pub(crate) fn read_turtle(text: &str) -> (r: Result<Vec<Triple>, rio_turtle::TurtleError>)
    ensures
        r.is_ok() == parsed_turtle(text@).is_some(),
        r matches Ok(triples) ==> parsed_turtle(text@) == Some(triple_views(triples@)),
{
    let mut triples: Vec<Triple> = Vec::new();
    let mut parser = rio_turtle::TurtleParser::new(text.as_bytes(), None);
    let read: Result<(), rio_turtle::TurtleError> = parser.parse_all(&mut |t| {
        let typed_value = match t.object {
            rio_api::model::Term::Literal(rio_api::model::Literal::Typed { value, .. }) => Some(value.to_string()),
            _ => None,
        };
        triples.push(Triple::new(t.subject.to_string(), t.predicate.to_string(), t.object.to_string(), typed_value));
        Ok(())
    });
    read.map(|_| triples)
}

/// Shows a `rio_turtle::TurtleError` through its `Display`. Nothing is claimed
/// of the text.
#[verifier::external_body]
pub(crate) fn turtle_error_text(error: &rio_turtle::TurtleError) -> (r: String) {
    error.to_string()
}

/// Reads the triples of a Turtle document, in the order of the document. A
/// document that is not well formed is refused, with the parser's account of
/// what it met and where.
pub fn parse_turtle(text: &str) -> (r: Result<Vec<Triple>, Failure>)
    ensures
        match r {
            Ok(triples) => parsed_turtle(text@) == Some(triple_views(triples@)),
            Err(failure) => parsed_turtle(text@) is None && failure.kind == ErrorKind::ParseError,
        },
{
    match read_turtle(text) {
        Ok(triples) => Ok(triples),
        Err(error) => Err(
            Failure { kind: ErrorKind::ParseError, message: turtle_error_text(&error) },
        ),
    }
}

} // verus!
