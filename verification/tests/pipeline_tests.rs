use std::collections::BTreeMap;
use tree_fragmentation::config::{Config, Schema, SubjectDescriptor};
use tree_fragmentation::error::ErrorKind;
use tree_fragmentation::fragmentation::action::FileAction;
use tree_fragmentation::fragmentation::factory::FragmentationTypeName;
use tree_fragmentation::fragmentation::fragment::Boundary;
use tree_fragmentation::fragmentation::report::ReportEntry;
use tree_fragmentation::fragmentation::Fragmentation;
use tree_fragmentation::parse_datadump::{file_members, parse_datadump, Run};
use tree_fragmentation::rdf::parse_turtle;
use tree_fragmentation::time::{parse_date, MAX_TIME, MIN_TIME};

const DAY_1: i64 = 1577836800;
const DAY: i64 = 86400;
const SERVER: &str = "http://localhost:3000/";

fn config(highest_date: i64, lowest_date: i64) -> Config {
    let rule = |predicate: &str| Schema {
        subject: SubjectDescriptor::MemberSubject,
        predicate: predicate.to_string(),
        object: None,
    };
    Config {
        member_url_regex: "http://example.org/member/".to_string(),
        schema: vec![
            rule("<http://example.org/date>"),
            rule("<http://example.org/value>"),
        ],
        n_members: 10,
        date_field: "http://example.org/date".to_string(),
        highest_date,
        lowest_date,
        server_address: SERVER.to_string(),
    }
}

fn member_text(n: usize, date: &str) -> String {
    format!(
        "<http://example.org/member/{n}> <http://example.org/date> \"{date}\"^^<http://www.w3.org/2001/XMLSchema#dateTime> ;\n    <http://example.org/value> \"{n}\" .\n"
    )
}

fn member_lines(n: usize, date: &str) -> String {
    format!(
        "<http://example.org/member/{n}> <http://example.org/date> \"{date}\"^^<http://www.w3.org/2001/XMLSchema#dateTime> .\n<http://example.org/member/{n}> <http://example.org/value> \"{n}\" .\n"
    )
}

fn run(text: &str, config: &Config, cache: usize, n: usize, kind: FragmentationTypeName, depth: Option<usize>) -> Run {
    parse_datadump(text, config, cache, n, kind, depth, "http://myTree.org/tree#".to_string()).unwrap()
}

fn failure(text: &str, config: &Config, cache: usize, n: usize, kind: FragmentationTypeName, depth: Option<usize>) -> ErrorKind {
    parse_datadump(text, config, cache, n, kind, depth, "http://myTree.org/tree#".to_string())
        .unwrap_err()
        .kind
}

struct Directory {
    files: BTreeMap<String, String>,
    report: Vec<ReportEntry>,
}

fn carry_out(actions: &[FileAction]) -> Directory {
    let mut directory = Directory { files: BTreeMap::new(), report: vec![] };
    for action in actions {
        let name = action.filename().clone();
        match action {
            FileAction::Create { .. } => {
                directory.files.insert(name, String::new());
            }
            FileAction::AppendMembers { .. } | FileAction::AppendRelations { .. } => {
                let text = action.content().unwrap();
                directory.files.get_mut(&name).expect("the file exists").push_str(&text);
            }
            FileAction::WriteRelations { .. } => {
                directory.files.insert(name, action.content().unwrap());
            }
            FileAction::Remove { .. } => {
                assert!(directory.files.remove(&name).is_some());
            }
            FileAction::WriteReport { entries, .. } => {
                assert_eq!(action.content(), None);
                directory.report = entries.clone();
                directory.files.insert(name, String::new());
            }
        }
    }
    directory
}

fn flushes(actions: &[FileAction]) -> usize {
    actions
        .iter()
        .filter(|a| matches!(a, FileAction::AppendMembers { .. }))
        .count()
}

#[test]
fn empty_dump() {
    let run = run("", &config(DAY_1 + DAY, DAY_1), 5, 2, FragmentationTypeName::OneAryTree, None);
    assert_eq!(run.n_members, 0);
    assert!(run.fragmentation.fragments().is_empty());
    let directory = carry_out(&run.actions);
    assert_eq!(directory.files.get("0.ttl"), Some(&String::new()));
    assert!(directory.report.is_empty());
    let names: Vec<&String> = directory.files.keys().collect();
    assert_eq!(names, vec!["0.ttl", "report.json"]);
}

#[test]
fn single_member_one_ary_tree() {
    let text = member_text(1, "2020-01-01T12:00:00.000");
    let run = run(&text, &config(DAY_1 + DAY, DAY_1), 5, 2, FragmentationTypeName::OneAryTree, None);
    assert_eq!(run.n_members, 1);
    assert_eq!(run.fragmentation.fragments().len(), 1);
    let survivor = &run.fragmentation.fragments()[0];
    assert_eq!(survivor.filename(), "1.ttl");
    assert_eq!(survivor.size(), 1);
    let directory = carry_out(&run.actions);
    let names: Vec<&String> = directory.files.keys().collect();
    assert_eq!(names, vec!["0.ttl", "1.ttl", "report.json"]);
    assert_eq!(directory.files["1.ttl"], member_lines(1, "2020-01-01T12:00:00.000"));
    let root = parse_turtle(&directory.files["0.ttl"]).unwrap();
    let operators: Vec<&str> = root
        .iter()
        .filter(|t| t.predicate == "<http://www.w3.org/1999/02/22-rdf-syntax-ns#type>")
        .map(|t| t.object.as_str())
        .collect();
    assert_eq!(operators, vec!["<https://w3id.org/tree#LessThanRelation>"]);
    assert_eq!(directory.report.len(), 1);
    assert_eq!(directory.report[0].filename, "1.ttl");
    assert_eq!(directory.report[0].report.n_member, Some(1));
}

#[test]
fn out_of_order_dates_linked_list() {
    let text = [
        member_text(3, "2020-01-03T00:00:00.000"),
        member_text(1, "2020-01-01T00:00:00.000"),
        member_text(2, "2020-01-02T00:00:00.000"),
    ]
    .concat();
    let run = run(&text, &config(DAY_1 + 2 * DAY, DAY_1), 5, 3, FragmentationTypeName::LinkedList, None);
    assert_eq!(run.n_members, 3);
    let directory = carry_out(&run.actions);
    assert_eq!(directory.files["1.ttl"].matches("http://example.org/value").count(), 1);
    let mut visited = vec![];
    let mut found = String::new();
    let root = parse_turtle(&directory.files["0.ttl"]).unwrap();
    let mut next: Option<String> = root
        .iter()
        .find(|t| t.predicate == "<https://w3id.org/tree#node>")
        .map(|t| t.object.clone());
    while let Some(node) = next {
        let name = node
            .trim_start_matches('<')
            .trim_end_matches('>')
            .strip_prefix(SERVER)
            .unwrap()
            .to_string();
        let triples = parse_turtle(&directory.files[&name]).unwrap();
        for triple in triples.iter().filter(|t| t.predicate == "<http://example.org/value>") {
            found.push_str(&triple.object);
        }
        next = triples
            .iter()
            .find(|t| t.predicate == "<https://w3id.org/tree#node>")
            .map(|t| t.object.clone());
        visited.push(name);
    }
    assert_eq!(visited, vec!["1.ttl", "2.ttl", "3.ttl"]);
    assert_eq!(found, "\"1\"\"2\"\"3\"");
    for member in 1..=3 {
        let holding = directory
            .files
            .values()
            .filter(|text| text.contains(&format!("<http://example.org/member/{member}>")))
            .count();
        assert_eq!(holding, 1);
    }
}

#[test]
fn cache_pressure() {
    let text: String = (0..10)
        .map(|n| member_text(n, "2020-01-01T06:00:00.000"))
        .collect();
    let run = run(&text, &config(DAY_1 + DAY, DAY_1), 2, 2, FragmentationTypeName::OneAryTree, None);
    assert!(flushes(&run.actions) >= 5);
    assert_eq!(flushes(&run.actions), 10);
    assert_eq!(run.fragmentation.fragments().len(), 1);
    assert_eq!(run.fragmentation.fragments()[0].size(), 10);
    let directory = carry_out(&run.actions);
    let expected: String = (0..10)
        .map(|n| member_lines(n, "2020-01-01T06:00:00.000"))
        .collect();
    assert_eq!(directory.files["1.ttl"], expected);
}

#[test]
fn tree_topology() {
    let run = run("", &config(DAY_1 + DAY, DAY_1), 5, 2, FragmentationTypeName::Tree, Some(1));
    let fragments = run.fragmentation.fragments();
    let leaves = &fragments[2..];
    assert_eq!(leaves.len(), 4);
    let directory = carry_out(&run.actions);
    assert_eq!(directory.files.len(), 1 + 2 + 4 + 1);
    for parent in ["1.ttl", "2.ttl"] {
        let triples = parse_turtle(&directory.files[parent]).unwrap();
        let relations: Vec<_> = triples
            .iter()
            .filter(|t| t.predicate == "<https://w3id.org/tree#relation>")
            .collect();
        assert_eq!(relations.len(), 2);
        let targets: Vec<String> = triples
            .iter()
            .filter(|t| t.predicate == "<https://w3id.org/tree#node>")
            .map(|t| t.object.clone())
            .collect();
        assert_eq!(targets.len(), 2);
        for target in targets {
            let name = target
                .trim_start_matches('<')
                .trim_end_matches('>')
                .strip_prefix(SERVER)
                .unwrap()
                .to_string();
            assert!(leaves.iter().any(|f| f.filename() == &name));
            assert_eq!(directory.files[&name], "");
        }
    }
}

#[test]
fn root_relations_round_trip_to_the_boundaries() {
    let text = [
        member_text(1, "2020-01-01T01:00:00.000"),
        member_text(2, "2020-01-02T01:00:00.000"),
        member_text(3, "2020-01-04T01:00:00.000"),
    ]
    .concat();
    let run = run(&text, &config(DAY_1 + 4 * DAY, DAY_1), 5, 4, FragmentationTypeName::OneAryTree, None);
    let directory = carry_out(&run.actions);
    let triples = parse_turtle(&directory.files["0.ttl"]).unwrap();
    let mut read: BTreeMap<String, Boundary> = BTreeMap::new();
    let relations: Vec<&String> = triples
        .iter()
        .filter(|t| t.predicate == "<https://w3id.org/tree#relation>")
        .map(|t| &t.object)
        .collect();
    for relation in relations {
        let of = |predicate: &str| {
            triples
                .iter()
                .find(|t| &t.subject == relation && t.predicate == predicate)
                .unwrap()
        };
        let node = of("<https://w3id.org/tree#node>").object.clone();
        let name = node
            .trim_start_matches('<')
            .trim_end_matches('>')
            .strip_prefix(SERVER)
            .unwrap()
            .to_string();
        let value = of("<https://w3id.org/tree#value>").typed_value.clone().unwrap();
        let seconds = parse_date(&value).unwrap();
        let operator = of("<http://www.w3.org/1999/02/22-rdf-syntax-ns#type>").object.clone();
        assert_eq!(
            of("<https://w3id.org/tree#path>").object,
            "<http://example.org/date>"
        );
        let boundary = read
            .entry(name)
            .or_insert(Boundary { lower: MIN_TIME, upper: MAX_TIME });
        if operator == "<https://w3id.org/tree#LessThanRelation>" {
            boundary.upper = seconds;
        } else {
            assert_eq!(operator, "<https://w3id.org/tree#GreaterThanOrEqualToRelation>");
            boundary.lower = seconds;
        }
    }
    let written: BTreeMap<String, Boundary> = run
        .fragmentation
        .fragments()
        .iter()
        .map(|f| (f.filename().clone(), *f.boundary()))
        .collect();
    assert_eq!(read, written);
    assert_eq!(written.len(), 3);
}

#[test]
fn report_gives_every_fragment_its_size() {
    let text: String = (0..7)
        .map(|n| member_text(n, if n < 5 { "2020-01-01T01:00:00.000" } else { "2020-01-03T01:00:00.000" }))
        .collect();
    for kind in [FragmentationTypeName::OneAryTree, FragmentationTypeName::LinkedList] {
        let run = run(&text, &config(DAY_1 + 3 * DAY, DAY_1), 3, 3, kind, None);
        let directory = carry_out(&run.actions);
        assert_eq!(directory.report.len(), run.fragmentation.fragments().len());
        for (entry, fragment) in directory.report.iter().zip(run.fragmentation.fragments()) {
            assert_eq!(&entry.filename, fragment.filename());
            assert_eq!(entry.report.n_member, Some(fragment.size()));
            assert_eq!(&entry.report.boundary, fragment.boundary());
        }
        let total: usize = run.fragmentation.fragments().iter().map(|f| f.size()).sum();
        assert_eq!(total, 7);
        assert_eq!(run.n_members, 7);
    }
}

#[test]
fn two_runs_write_the_same_members() {
    let text: String = (0..9)
        .map(|n| member_text(n, &format!("2020-01-0{}T01:00:00.000", 1 + n % 3)))
        .collect();
    let first = run(&text, &config(DAY_1 + 3 * DAY, DAY_1), 3, 3, FragmentationTypeName::OneAryTree, None);
    let second = run(&text, &config(DAY_1 + 3 * DAY, DAY_1), 3, 3, FragmentationTypeName::OneAryTree, None);
    let one = carry_out(&first.actions);
    let other = carry_out(&second.actions);
    assert_eq!(one.report, other.report);
    for name in ["1.ttl", "2.ttl", "3.ttl"] {
        assert_eq!(one.files[name], other.files[name]);
        assert_eq!(one.files[name].matches("http://example.org/value").count(), 3);
    }
    assert_ne!(one.files["0.ttl"], other.files["0.ttl"]);
}

#[test]
fn failures_come_in_their_order() {
    let good = member_text(1, "2020-01-01T12:00:00.000");
    let fine = config(DAY_1 + DAY, DAY_1);
    let one_ary = FragmentationTypeName::OneAryTree;
    assert_eq!(failure(&good, &fine, 5, 1, one_ary, None), ErrorKind::CliInvalid);
    assert_eq!(failure(&good, &fine, 5, 2, one_ary, Some(0)), ErrorKind::CliInvalid);
    assert_eq!(
        failure(&good, &fine, 5, 2, FragmentationTypeName::Tree, None),
        ErrorKind::CliInvalid
    );
    assert_eq!(
        failure(&good, &config(DAY_1, DAY_1 + DAY), 5, 2, one_ary, None),
        ErrorKind::ConfigInvalid
    );
    let mut bad_pattern = config(DAY_1 + DAY, DAY_1);
    bad_pattern.member_url_regex = "(".to_string();
    assert_eq!(failure("not turtle", &bad_pattern, 5, 2, one_ary, None), ErrorKind::ConfigInvalid);
    assert_eq!(failure("not turtle", &fine, 5, 2, one_ary, None), ErrorKind::ParseError);
    let undated = member_text(1, "some day");
    assert_eq!(
        failure(&undated, &fine, 5, 2, one_ary, None),
        ErrorKind::SchemaContractViolation
    );
    assert_eq!(failure(&good, &fine, 1, 2, one_ary, None), ErrorKind::CacheFull);
    assert_eq!(failure(&good, &fine, 0, 2, FragmentationTypeName::Tree, Some(1)), ErrorKind::CacheFull);
    let empty = run("", &fine, 1, 2, one_ary, None);
    assert_eq!(empty.n_members, 0);
}

#[test]
fn file_members_counts_every_member() {
    let text: String = (0..6)
        .map(|n| member_text(n, "2020-01-01T06:00:00.000"))
        .collect();
    let members = tree_fragmentation::parse_datadump::assemble(
        &config(DAY_1 + DAY, DAY_1),
        &parse_turtle(&text).unwrap(),
    )
    .unwrap();
    let (mut engine, _) = tree_fragmentation::fragmentation::tree::Tree::new(
        2,
        3,
        DAY_1 + DAY,
        DAY_1,
        SERVER.to_string(),
        "http://example.org/date".to_string(),
        1,
    );
    let actions = file_members(&mut engine, &members).unwrap();
    let total: usize = engine.fragments().iter().map(|f| f.size()).sum();
    assert_eq!(total, 6);
    let written: usize = actions
        .iter()
        .map(|a| match a {
            FileAction::AppendMembers { members, .. } => members.len(),
            _ => 0,
        })
        .sum();
    let cached: usize = engine.fragments().iter().map(|f| f.cache_len()).sum();
    assert_eq!(written + cached, 6);
}

#[test]
fn every_member_is_written_once() {
    let text: String = (0..25)
        .map(|n| member_text(n, &format!("2020-01-0{}T0{}:00:00.000", 1 + n % 4, n % 7)))
        .collect();
    let cases = [
        (FragmentationTypeName::OneAryTree, None),
        (FragmentationTypeName::LinkedList, None),
        (FragmentationTypeName::Tree, Some(2)),
    ];
    for (kind, depth) in cases {
        let run = run(&text, &config(DAY_1 + 4 * DAY, DAY_1), 3, 4, kind, depth);
        let mut written: Vec<String> = run
            .actions
            .iter()
            .flat_map(|a| match a {
                FileAction::AppendMembers { members, .. } => {
                    members.iter().map(|m| m.id.clone()).collect::<Vec<String>>()
                }
                _ => vec![],
            })
            .collect();
        written.sort();
        let mut expected: Vec<String> = (0..25)
            .map(|n| format!("<http://example.org/member/{n}>"))
            .collect();
        expected.sort();
        assert_eq!(written, expected);
        assert!(run.fragmentation.fragments().iter().all(|f| f.cache_len() == 0));
        let directory = carry_out(&run.actions);
        for n in 0..25 {
            let holding = directory
                .files
                .values()
                .filter(|text| text.contains(&format!("<http://example.org/member/{n}> <http://example.org/value>")))
                .count();
            assert_eq!(holding, 1);
        }
    }
}
