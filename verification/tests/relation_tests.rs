use tree_fragmentation::fragmentation::action::relations_to_string;
use tree_fragmentation::rdf::{statement_text, Triple};
use tree_fragmentation::tree::{Relation, RelationOperator};

fn constrained() -> Relation {
    Relation::new(
        Some("http://example.org/date".to_string()),
        Some("2020-01-01T00:00:00.000000000".to_string()),
        "http://localhost:3000/1.ttl".to_string(),
        Some(RelationOperator::LessThanRelation),
        "http://localhost:3000/0.ttl".to_string(),
        "abc".to_string(),
    )
}

#[test]
fn relation_is_written_statement_by_statement() {
    let expected = "<http://localhost:3000/0.ttl> <https://w3id.org/tree#relation> _:abc .\n\
_:abc <http://www.w3.org/1999/02/22-rdf-syntax-ns#type> <https://w3id.org/tree#LessThanRelation> .\n\
_:abc <https://w3id.org/tree#node> <http://localhost:3000/1.ttl> .\n\
_:abc <https://w3id.org/tree#value> \"2020-01-01T00:00:00.000000000\"^^<http://www.w3.org/2001/XMLSchema#dateTime> .\n\
_:abc <https://w3id.org/tree#path> <http://example.org/date> .\n";
    assert_eq!(constrained().to_string(), expected);
}

#[test]
fn unconstrained_relation_has_two_statements() {
    let relation = Relation::new_unconstraint(
        "http://localhost:3000/1.ttl".to_string(),
        "http://localhost:3000/0.ttl".to_string(),
        "id-7".to_string(),
    );
    assert_eq!(relation.path(), &None);
    assert_eq!(relation.value(), &None);
    assert_eq!(relation.relation_type(), &None);
    assert_eq!(relation.node(), "http://localhost:3000/1.ttl");
    assert_eq!(relation.current_node_iri(), "http://localhost:3000/0.ttl");
    assert_eq!(relation.relation_id(), "id-7");
    assert_eq!(
        relation.to_string(),
        "<http://localhost:3000/0.ttl> <https://w3id.org/tree#relation> _:id-7 .\n\
_:id-7 <https://w3id.org/tree#node> <http://localhost:3000/1.ttl> .\n"
    );
}

#[test]
fn literal_value_is_escaped() {
    let relation = Relation::new(
        None,
        Some("a\"b\\c\nd\re".to_string()),
        "n".to_string(),
        None,
        "c".to_string(),
        "i".to_string(),
    );
    assert_eq!(
        relation.to_string(),
        "<c> <https://w3id.org/tree#relation> _:i .\n\
_:i <https://w3id.org/tree#node> <n> .\n\
_:i <https://w3id.org/tree#value> \"a\\\"b\\\\c\\nd\\re\"^^<http://www.w3.org/2001/XMLSchema#dateTime> .\n"
    );
}

#[test]
fn relation_clone_is_equal() {
    let relation = constrained();
    assert_eq!(relation.clone(), relation);
}

#[test]
fn operators_have_their_vocabulary_names() {
    let all = [
        (RelationOperator::PrefixRelation, "PrefixRelation"),
        (RelationOperator::SubstringRelation, "SubstringRelation"),
        (RelationOperator::SuffixRelation, "SuffixRelation"),
        (RelationOperator::GreaterThanRelation, "GreaterThanRelation"),
        (
            RelationOperator::GreaterThanOrEqualToRelation,
            "GreaterThanOrEqualToRelation",
        ),
        (RelationOperator::LessThanRelation, "LessThanRelation"),
        (
            RelationOperator::LessThanOrEqualToRelation,
            "LessThanOrEqualToRelation",
        ),
        (RelationOperator::EqualThanRelation, "EqualThanRelation"),
        (
            RelationOperator::GeospatiallyContainsRelation,
            "GeospatiallyContainsRelation",
        ),
    ];
    for (operator, name) in all {
        assert_eq!(operator.to_string(), format!("https://w3id.org/tree#{name}"));
    }
}

#[test]
fn listing_separates_relations_by_an_empty_line() {
    let one = constrained().to_string();
    let listing = relations_to_string(vec![constrained(), constrained()]);
    assert_eq!(listing, format!("{one}\n{one}\n"));
    assert_eq!(relations_to_string(vec![]), "");
}

#[test]
fn statement_ends_with_a_full_stop() {
    assert_eq!(statement_text("<s>", "<p>", "<o>"), "<s> <p> <o> .\n");
}

#[test]
fn triple_is_written_on_one_line() {
    let triple = Triple::new(
        "<s>".to_string(),
        "<p>".to_string(),
        "\"1\"".to_string(),
        None,
    );
    assert_eq!(triple.to_string(), "<s> <p> \"1\"");
}
