use tree_fragmentation::config::{Config, Schema, SubjectDescriptor};
use tree_fragmentation::error::ErrorKind;
use tree_fragmentation::member::Member;
use tree_fragmentation::parse_datadump::{assemble, MemberAssembler};
use tree_fragmentation::rdf::{parse_turtle, Triple};
use tree_fragmentation::read_datadump::read_datadump;

const DATE: &str = "<http://example.org/date>";
const VALUE: &str = "<http://example.org/value>";
const UNIT: &str = "<http://example.org/unit>";

fn rule(predicate: &str) -> Schema {
    Schema {
        subject: SubjectDescriptor::MemberSubject,
        predicate: predicate.to_string(),
        object: None,
    }
}

fn config(predicates: &[&str]) -> Config {
    Config {
        member_url_regex: "http://example.org/member/[0-9]+".to_string(),
        schema: predicates.iter().map(|p| rule(p)).collect(),
        n_members: 10,
        date_field: "http://example.org/date".to_string(),
        highest_date: 1577923200,
        lowest_date: 1577836800,
        server_address: "http://localhost:3000/".to_string(),
    }
}

fn subject(n: usize) -> String {
    format!("<http://example.org/member/{n}>")
}

fn plain(n: usize, predicate: &str, object: &str) -> Triple {
    Triple::new(subject(n), predicate.to_string(), object.to_string(), None)
}

fn dated(n: usize, value: &str) -> Triple {
    Triple::new(
        subject(n),
        DATE.to_string(),
        format!("\"{value}\"^^<http://www.w3.org/2001/XMLSchema#dateTime>"),
        Some(value.to_string()),
    )
}

#[test]
fn member_is_handed_over_when_every_rule_is_met() {
    let triples = vec![
        dated(1, "2020-01-01T12:00:00.000"),
        plain(1, VALUE, "\"3\""),
        plain(2, VALUE, "\"4\""),
        dated(2, "2020-01-01T13:00:00.000"),
    ];
    let members = assemble(&config(&[DATE, VALUE]), &triples).unwrap();
    assert_eq!(
        members,
        vec![
            Member {
                properties: vec![triples[0].to_string(), triples[1].to_string()],
                date: 1577880000,
                id: subject(1),
            },
            Member {
                properties: vec![triples[2].to_string(), triples[3].to_string()],
                date: 1577883600,
                id: subject(2),
            },
        ]
    );
}

#[test]
fn push_reports_each_step() {
    let mut assembler = MemberAssembler::new(&config(&[DATE, VALUE])).unwrap();
    assert_eq!(assembler.n_member_parsed(), 0);
    assert_eq!(assembler.push(&plain(1, VALUE, "\"3\"")), Ok(None));
    assert_eq!(assembler.push(&plain(1, UNIT, "\"m\"")), Ok(None));
    let member = assembler
        .push(&dated(1, "2020-01-01T12:00:00.000"))
        .unwrap()
        .unwrap();
    assert_eq!(member.properties.len(), 3);
    assert_eq!(member.date, 1577880000);
    assert_eq!(member.id, subject(1));
    assert_eq!(assembler.n_member_parsed(), 1);
    assert_eq!(assembler.push(&plain(2, VALUE, "\"3\"")), Ok(None));
    assert_eq!(assembler.n_member_parsed(), 1);
}

#[test]
fn schema_incomplete_member_discarded() {
    let triples = vec![
        dated(1, "2020-01-01T12:00:00.000"),
        plain(1, VALUE, "\"3\""),
        dated(1, "2020-01-01T13:00:00.000"),
        plain(1, VALUE, "\"4\""),
        plain(1, UNIT, "\"m\""),
    ];
    let members = assemble(&config(&[DATE, VALUE, UNIT]), &triples).unwrap();
    assert_eq!(members.len(), 1);
    assert_eq!(members[0].id, subject(1));
    assert_eq!(members[0].properties.len(), 5);
    assert_eq!(members[0].date, 1577883600);
}

#[test]
fn incomplete_member_at_the_end_is_dropped() {
    let triples = vec![
        dated(1, "2020-01-01T12:00:00.000"),
        plain(1, VALUE, "\"3\""),
        plain(1, UNIT, "\"m\""),
        dated(2, "2020-01-01T13:00:00.000"),
        plain(2, VALUE, "\"4\""),
    ];
    let members = assemble(&config(&[DATE, VALUE, UNIT]), &triples).unwrap();
    assert_eq!(members.len(), 1);
    assert_eq!(members[0].id, subject(1));
    assert_eq!(members[0].properties.len(), 3);
}

#[test]
fn member_keeps_the_name_that_its_first_triple_gave() {
    let triples = vec![
        dated(1, "2020-01-01T12:00:00.000"),
        plain(1, VALUE, "\"3\""),
        dated(2, "2020-01-01T13:00:00.000"),
        plain(2, VALUE, "\"4\""),
        plain(2, UNIT, "\"m\""),
    ];
    let members = assemble(&config(&[DATE, VALUE, UNIT]), &triples).unwrap();
    assert_eq!(members, vec![]);
}

#[test]
fn rules_may_be_met_in_any_order() {
    let triples = vec![
        plain(1, UNIT, "\"m\""),
        plain(1, VALUE, "\"3\""),
        dated(1, "2020-01-01T12:00:00.000"),
    ];
    let members = assemble(&config(&[DATE, VALUE, UNIT]), &triples).unwrap();
    assert_eq!(members.len(), 1);
}

#[test]
fn subject_outside_the_pattern_names_no_member() {
    let stranger = Triple::new(
        "_:b0".to_string(),
        VALUE.to_string(),
        "\"3\"".to_string(),
        None,
    );
    let mut assembler = MemberAssembler::new(&config(&[VALUE])).unwrap();
    assert_eq!(assembler.push(&stranger), Ok(None));
    assert_eq!(assembler.push(&plain(1, VALUE, "\"3\"")), Ok(None));
}

#[test]
fn empty_schema_completes_every_triple() {
    let triples = vec![plain(1, VALUE, "\"3\""), plain(2, VALUE, "\"4\"")];
    let members = assemble(&config(&[]), &triples).unwrap();
    assert_eq!(members.len(), 2);
    assert_eq!(members[0].date, 0);
    assert_eq!(members[1].id, subject(2));
}

#[test]
fn date_without_typed_literal_is_a_violation() {
    let untyped = plain(1, DATE, "\"2020-01-01T12:00:00.000\"");
    assert_eq!(
        assemble(&config(&[DATE]), &vec![untyped]),
        Err(ErrorKind::SchemaContractViolation)
    );
    let node = plain(1, DATE, "<http://example.org/o>");
    assert_eq!(
        assemble(&config(&[DATE]), &vec![node]),
        Err(ErrorKind::SchemaContractViolation)
    );
}

#[test]
fn date_that_cannot_be_read_is_a_violation() {
    let mut assembler = MemberAssembler::new(&config(&[DATE, VALUE])).unwrap();
    assert_eq!(assembler.push(&plain(1, VALUE, "\"3\"")), Ok(None));
    assert_eq!(
        assembler.push(&dated(1, "yesterday")),
        Err(ErrorKind::SchemaContractViolation)
    );
    assert_eq!(
        assembler.push(&dated(1, "2020-01-01T12:00:00")),
        Err(ErrorKind::SchemaContractViolation)
    );
    let member = assembler
        .push(&dated(1, "2020-01-01T12:00:00.0"))
        .unwrap()
        .unwrap();
    assert_eq!(member.properties.len(), 2);
}

#[test]
fn bad_pattern_is_a_configuration_error() {
    let mut bad = config(&[DATE]);
    bad.member_url_regex = "member(".to_string();
    assert_eq!(MemberAssembler::new(&bad).err(), Some(ErrorKind::ConfigInvalid));
    assert_eq!(assemble(&bad, &vec![]), Err(ErrorKind::ConfigInvalid));
}

#[test]
fn pattern_is_searched_in_the_subject() {
    let mut partial = config(&[VALUE]);
    partial.member_url_regex = "member/[0-9]+>$".to_string();
    let members = assemble(&partial, &vec![plain(12, VALUE, "\"3\"")]).unwrap();
    assert_eq!(members[0].id, subject(12));
    partial.member_url_regex = "^member".to_string();
    assert_eq!(assemble(&partial, &vec![plain(12, VALUE, "\"3\"")]), Ok(vec![]));
}

#[test]
fn turtle_is_read_in_document_order() {
    let text = "@prefix ex: <http://example.org/> .\n\
<http://example.org/member/1> ex:date \"2020-01-01T12:00:00.000\"^^<http://www.w3.org/2001/XMLSchema#dateTime> ;\n\
    ex:value \"3\", \"a\\\"b\"@en ;\n\
    ex:unit ex:metre .\n\
_:x ex:value 4 .\n";
    let triples = parse_turtle(text).unwrap();
    assert_eq!(triples.len(), 5);
    assert_eq!(triples[0], dated(1, "2020-01-01T12:00:00.000"));
    assert_eq!(triples[1], plain(1, VALUE, "\"3\""));
    assert_eq!(triples[2], plain(1, VALUE, "\"a\\\"b\"@en"));
    assert_eq!(triples[3], plain(1, UNIT, "<http://example.org/metre>"));
    assert_eq!(triples[4].subject, "_:x");
    assert_eq!(
        triples[4].object,
        "\"4\"^^<http://www.w3.org/2001/XMLSchema#integer>"
    );
    assert_eq!(triples[4].typed_value, Some("4".to_string()));
    assert_eq!(parse_turtle("").unwrap(), vec![]);
}

#[test]
fn malformed_turtle_is_a_parse_error() {
    let failure = parse_turtle("<http://example.org/a> <http://example.org/b> .").unwrap_err();
    assert_eq!(failure.kind, ErrorKind::ParseError);
    assert!(!failure.message.is_empty());
    let failure = parse_turtle("ex:a ex:b ex:c .").unwrap_err();
    assert_eq!(failure.kind, ErrorKind::ParseError);
}

#[test]
fn dry_run_counts_the_members() {
    let text = "<http://example.org/member/1> <http://example.org/value> \"3\" .\n\
<http://example.org/member/2> <http://example.org/value> \"4\" .\n\
<http://example.org/member/3> <http://example.org/unit> \"m\" .\n";
    assert_eq!(read_datadump(text, &config(&[VALUE])), Ok(2));
    assert_eq!(read_datadump("", &config(&[VALUE])), Ok(0));
    assert_eq!(
        read_datadump("<a> <b>", &config(&[VALUE])).unwrap_err().kind,
        ErrorKind::ParseError
    );
    let mut bad = config(&[VALUE]);
    bad.member_url_regex = "[".to_string();
    assert_eq!(
        read_datadump(text, &bad).unwrap_err().kind,
        ErrorKind::ConfigInvalid
    );
    let undated = "<http://example.org/member/1> <http://example.org/date> \"3\" .\n";
    assert_eq!(
        read_datadump(undated, &config(&[DATE])).unwrap_err().kind,
        ErrorKind::SchemaContractViolation
    );
}
