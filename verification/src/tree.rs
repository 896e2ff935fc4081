//! Relations of the TREE vocabulary and their serialisation.

use crate::rdf::{
    blank_node_form, blank_node_text, named_node_form, named_node_text, statement_form,
    statement_text, typed_literal_form, typed_literal_text,
};
use vstd::prelude::*;
use vstd::string::*;

verus! {

/// The type of a relation. See <https://treecg.github.io/specification/#vocabulary>.
#[derive(Clone, Copy, PartialEq, Eq, Debug, Structural)]
pub enum RelationOperator {
    /// All elements in the related node have this prefix.
    PrefixRelation,
    /// All elements in the related node have this substring.
    SubstringRelation,
    /// All members of this related node end with this suffix.
    SuffixRelation,
    /// The related node's members are greater than the value.
    GreaterThanRelation,
    /// The related node's members are greater than or equal to the value.
    GreaterThanOrEqualToRelation,
    /// The related node's members are less than the value.
    LessThanRelation,
    /// The related node's members are less than or equal to the value.
    LessThanOrEqualToRelation,
    /// The related node's members are equal to the value.
    EqualThanRelation,
    /// The related node's members lie within the value's region.
    GeospatiallyContainsRelation,
}

impl RelationOperator {
    /// The IRI of the operator in the TREE vocabulary.
    pub open spec fn iri(self) -> Seq<char> {
        match self {
            RelationOperator::PrefixRelation => "https://w3id.org/tree#PrefixRelation"@,
            RelationOperator::SubstringRelation => "https://w3id.org/tree#SubstringRelation"@,
            RelationOperator::SuffixRelation => "https://w3id.org/tree#SuffixRelation"@,
            RelationOperator::GreaterThanRelation => "https://w3id.org/tree#GreaterThanRelation"@,
            RelationOperator::GreaterThanOrEqualToRelation => "https://w3id.org/tree#GreaterThanOrEqualToRelation"@,
            RelationOperator::LessThanRelation => "https://w3id.org/tree#LessThanRelation"@,
            RelationOperator::LessThanOrEqualToRelation => "https://w3id.org/tree#LessThanOrEqualToRelation"@,
            RelationOperator::EqualThanRelation => "https://w3id.org/tree#EqualThanRelation"@,
            RelationOperator::GeospatiallyContainsRelation => "https://w3id.org/tree#GeospatiallyContainsRelation"@,
        }
    }

    /// The IRI of the operator in the TREE vocabulary.
    pub fn to_string(&self) -> (r: String)
        ensures
            r@ == self.iri(),
    {
        let text: &str = match self {
            RelationOperator::PrefixRelation => "https://w3id.org/tree#PrefixRelation",
            RelationOperator::SubstringRelation => "https://w3id.org/tree#SubstringRelation",
            RelationOperator::SuffixRelation => "https://w3id.org/tree#SuffixRelation",
            RelationOperator::GreaterThanRelation => "https://w3id.org/tree#GreaterThanRelation",
            RelationOperator::GreaterThanOrEqualToRelation => "https://w3id.org/tree#GreaterThanOrEqualToRelation",
            RelationOperator::LessThanRelation => "https://w3id.org/tree#LessThanRelation",
            RelationOperator::LessThanOrEqualToRelation => "https://w3id.org/tree#LessThanOrEqualToRelation",
            RelationOperator::EqualThanRelation => "https://w3id.org/tree#EqualThanRelation",
            RelationOperator::GeospatiallyContainsRelation => "https://w3id.org/tree#GeospatiallyContainsRelation",
        };
        String::from_str(text)
    }
}

/// `tree:path`.
pub open spec fn tree_path_vocab() -> Seq<char> {
    "https://w3id.org/tree#path"@
}

/// `tree:node`.
pub open spec fn tree_node_vocab() -> Seq<char> {
    "https://w3id.org/tree#node"@
}

/// `tree:value`.
pub open spec fn tree_value_vocab() -> Seq<char> {
    "https://w3id.org/tree#value"@
}

/// `rdf:type`.
pub open spec fn type_vocab() -> Seq<char> {
    "http://www.w3.org/1999/02/22-rdf-syntax-ns#type"@
}

/// `tree:relation`.
pub open spec fn tree_relation_vocab() -> Seq<char> {
    "https://w3id.org/tree#relation"@
}

/// `xsd:dateTime`.
pub open spec fn date_time_vocab() -> Seq<char> {
    "http://www.w3.org/2001/XMLSchema#dateTime"@
}

/// A link from one node of the tree to another, optionally qualified by a
/// constraint that the members behind the link meet.
#[derive(PartialEq, Eq, Debug)]
pub struct Relation {
    /// A property path that indicates what resource the value affects.
    path: Option<String>,
    /// The contextual value of this node.
    value: Option<String>,
    /// Link to the node document for this relationship.
    node: String,
    /// The type of the relationship.
    relation_type: Option<RelationOperator>,
    /// The node containing the relation.
    current_node_iri: String,
    /// The identifier of the blank node that stands for the relation.
    relation_id: String,
}

/// What a [`Relation`] holds.
pub struct RelationView {
    pub path: Option<Seq<char>>,
    pub value: Option<Seq<char>>,
    pub node: Seq<char>,
    pub relation_type: Option<RelationOperator>,
    pub current_node_iri: Seq<char>,
    pub relation_id: Seq<char>,
}

/// A relation without the identifier of its blank node: what it says, apart
/// from the name under which it says it.
pub struct RelationLink {
    pub path: Option<Seq<char>>,
    pub value: Option<Seq<char>>,
    pub node: Seq<char>,
    pub relation_type: Option<RelationOperator>,
    pub current_node_iri: Seq<char>,
}

/// The view of an optional text.
pub open spec fn option_view(text: Option<String>) -> Option<Seq<char>> {
    match text {
        Some(t) => Some(t@),
        None => None,
    }
}

impl RelationView {
    /// The relation without its identifier.
    pub open spec fn link(self) -> RelationLink {
        RelationLink {
            path: self.path,
            value: self.value,
            node: self.node,
            relation_type: self.relation_type,
            current_node_iri: self.current_node_iri,
        }
    }

    /// The statement that attaches the relation to its node.
    pub open spec fn relation_statement(self) -> Seq<char> {
        statement_form(
            named_node_form(self.current_node_iri),
            named_node_form(tree_relation_vocab()),
            blank_node_form(self.relation_id),
        )
    }

    /// The statement that gives the operator, if there is one.
    pub open spec fn type_statement(self) -> Seq<char> {
        match self.relation_type {
            Some(operator) => statement_form(
                blank_node_form(self.relation_id),
                named_node_form(type_vocab()),
                named_node_form(operator.iri()),
            ),
            None => Seq::empty(),
        }
    }

    /// The statement that names the target node.
    pub open spec fn node_statement(self) -> Seq<char> {
        statement_form(
            blank_node_form(self.relation_id),
            named_node_form(tree_node_vocab()),
            named_node_form(self.node),
        )
    }

    /// The statement that gives the value, if there is one.
    pub open spec fn value_statement(self) -> Seq<char> {
        match self.value {
            Some(value) => statement_form(
                blank_node_form(self.relation_id),
                named_node_form(tree_value_vocab()),
                typed_literal_form(value, date_time_vocab()),
            ),
            None => Seq::empty(),
        }
    }

    /// The statement that gives the path, if there is one.
    pub open spec fn path_statement(self) -> Seq<char> {
        match self.path {
            Some(path) => statement_form(
                blank_node_form(self.relation_id),
                named_node_form(tree_path_vocab()),
                named_node_form(path),
            ),
            None => Seq::empty(),
        }
    }

    /// The serialisation of the relation: its statements, one per line.
    pub open spec fn text(self) -> Seq<char> {
        self.relation_statement() + self.type_statement() + self.node_statement()
            + self.value_statement() + self.path_statement()
    }
}

impl View for Relation {
    type V = RelationView;

    closed spec fn view(&self) -> RelationView {
        RelationView {
            path: option_view(self.path),
            value: option_view(self.value),
            node: self.node@,
            relation_type: self.relation_type,
            current_node_iri: self.current_node_iri@,
            relation_id: self.relation_id@,
        }
    }
}

impl Clone for Relation {
    fn clone(&self) -> (r: Self)
        ensures
            r@ == self@,
    {
        Relation {
            path: clone_text(&self.path),
            value: clone_text(&self.value),
            node: self.node.clone(),
            relation_type: self.relation_type,
            current_node_iri: self.current_node_iri.clone(),
            relation_id: self.relation_id.clone(),
        }
    }
}

/// A copy of an optional text.
pub fn clone_text(text: &Option<String>) -> (r: Option<String>)
    ensures
        option_view(r) == option_view(*text),
{
    match text {
        Some(t) => Some(t.clone()),
        None => None,
    }
}

impl Relation {
    /// A relation from all of its parts.
    pub fn new(
        path: Option<String>,
        value: Option<String>,
        node: String,
        relation_type: Option<RelationOperator>,
        current_node_iri: String,
        relation_id: String,
    ) -> (r: Self)
        ensures
            r@ == (RelationView {
                path: option_view(path),
                value: option_view(value),
                node: node@,
                relation_type,
                current_node_iri: current_node_iri@,
                relation_id: relation_id@,
            }),
    {
        Relation { path, value, node, relation_type, current_node_iri, relation_id }
    }

    /// A link that says nothing of the members behind it.
    pub fn new_unconstraint(node: String, current_node_iri: String, relation_id: String) -> (r:
        Self)
        ensures
            r@ == (RelationView {
                path: None,
                value: None,
                node: node@,
                relation_type: None,
                current_node_iri: current_node_iri@,
                relation_id: relation_id@,
            }),
    {
        Relation {
            path: None,
            value: None,
            node,
            current_node_iri,
            relation_type: None,
            relation_id,
        }
    }

    /// The property path, if any.
    pub fn path(&self) -> (r: &Option<String>)
        ensures
            option_view(*r) == self@.path,
    {
        &self.path
    }

    /// The value, if any.
    pub fn value(&self) -> (r: &Option<String>)
        ensures
            option_view(*r) == self@.value,
    {
        &self.value
    }

    /// The target node.
    pub fn node(&self) -> (r: &String)
        ensures
            r@ == self@.node,
    {
        &self.node
    }

    /// The operator, if any.
    pub fn relation_type(&self) -> (r: &Option<RelationOperator>)
        ensures
            *r == self@.relation_type,
    {
        &self.relation_type
    }

    /// The node that holds the relation.
    pub fn current_node_iri(&self) -> (r: &String)
        ensures
            r@ == self@.current_node_iri,
    {
        &self.current_node_iri
    }

    /// The identifier of the relation's blank node.
    pub fn relation_id(&self) -> (r: &String)
        ensures
            r@ == self@.relation_id,
    {
        &self.relation_id
    }

    /// Serialises the relation as statements, one per line: the attachment to
    /// the current node, then the operator, the target, the value and the
    /// path, the optional ones only where they are set.
    pub fn to_string(&self) -> (r: String)
        ensures
            r@ == self@.text(),
    {
        let blank = blank_node_text(self.relation_id.as_str());
        let current = named_node_text(self.current_node_iri.as_str());
        let relation_predicate = named_node_text("https://w3id.org/tree#relation");
        let mut resp = statement_text(
            current.as_str(),
            relation_predicate.as_str(),
            blank.as_str(),
        );
        assert(resp@ == self@.relation_statement());
        match &self.relation_type {
            Some(operator) => {
                let predicate = named_node_text("http://www.w3.org/1999/02/22-rdf-syntax-ns#type");
                let object = named_node_text(operator.to_string().as_str());
                let line = statement_text(blank.as_str(), predicate.as_str(), object.as_str());
                resp.append(line.as_str());
            },
            None => {},
        }
        assert(resp@ =~= self@.relation_statement() + self@.type_statement());
        let node_predicate = named_node_text("https://w3id.org/tree#node");
        let node_object = named_node_text(self.node.as_str());
        let node_line = statement_text(
            blank.as_str(),
            node_predicate.as_str(),
            node_object.as_str(),
        );
        resp.append(node_line.as_str());
        let ghost before_value = resp@;
        match &self.value {
            Some(value) => {
                let predicate = named_node_text("https://w3id.org/tree#value");
                let object = typed_literal_text(
                    value.as_str(),
                    "http://www.w3.org/2001/XMLSchema#dateTime",
                );
                let line = statement_text(blank.as_str(), predicate.as_str(), object.as_str());
                resp.append(line.as_str());
            },
            None => {},
        }
        assert(resp@ =~= before_value + self@.value_statement());
        let ghost before_path = resp@;
        match &self.path {
            Some(path) => {
                let predicate = named_node_text("https://w3id.org/tree#path");
                let object = named_node_text(path.as_str());
                let line = statement_text(blank.as_str(), predicate.as_str(), object.as_str());
                resp.append(line.as_str());
            },
            None => {},
        }
        assert(resp@ =~= before_path + self@.path_statement());
        assert(resp@ =~= self@.text());
        resp
    }
}

/// The views of a sequence of relations.
pub open spec fn relation_views(relations: Seq<Relation>) -> Seq<RelationView> {
    relations.map_values(|r: Relation| r@)
}

/// What a sequence of relations says, apart from the identifiers.
pub open spec fn relation_links(relations: Seq<Relation>) -> Seq<RelationLink> {
    relations.map_values(|r: Relation| r@.link())
}

} // verus!
