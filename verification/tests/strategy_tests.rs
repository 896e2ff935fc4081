use tree_fragmentation::error::ErrorKind;
use tree_fragmentation::fragmentation::action::FileAction;
use tree_fragmentation::fragmentation::factory::{factory, AnyFragmentation, FragmentationTypeName};
use tree_fragmentation::fragmentation::fragment::Boundary;
use tree_fragmentation::fragmentation::linked_list_fragmentation::LinkedListFragmentation;
use tree_fragmentation::fragmentation::one_ary_tree_fragmentation::{
    build_first_row, is_valid_range, OneAryTreeFragmentation,
};
use tree_fragmentation::fragmentation::report::{Report, ReportEntry};
use tree_fragmentation::fragmentation::tree::Tree;
use tree_fragmentation::fragmentation::{
    create_report, destination, generate_central_root_node, Fragmentation, FragmentationError,
};
use tree_fragmentation::member::Member;
use tree_fragmentation::time::{MAX_TIME, MIN_TIME};
use tree_fragmentation::tree::RelationOperator;

const SERVER: &str = "http://localhost:3000/";
const PROPERTY: &str = "http://example.org/date";
const DAY: i64 = 86400;
const START: i64 = 1577836800;

fn member(n: i64, date: i64) -> Member {
    Member {
        properties: vec![format!("<m{n}> <p> \"{n}\"")],
        date,
        id: format!("<m{n}>"),
    }
}

fn one_ary(n: usize, cache: usize, hi: i64, lo: i64) -> (OneAryTreeFragmentation, Vec<FileAction>) {
    OneAryTreeFragmentation::new(
        n,
        cache,
        hi,
        lo,
        SERVER.to_string(),
        PROPERTY.to_string(),
        "http://myTree.org/tree#".to_string(),
    )
}

fn linked(n: usize, cache: usize, hi: i64, lo: i64) -> (LinkedListFragmentation, Vec<FileAction>) {
    LinkedListFragmentation::new(
        n,
        cache,
        hi,
        lo,
        SERVER.to_string(),
        PROPERTY.to_string(),
        "http://myTree.org/tree#".to_string(),
    )
}

fn tree(n: usize, cache: usize, hi: i64, lo: i64, depth: usize) -> (Tree, Vec<FileAction>) {
    Tree::new(n, cache, hi, lo, SERVER.to_string(), PROPERTY.to_string(), depth)
}

fn sizes<F: Fragmentation>(engine: &F) -> Vec<usize> {
    engine.fragments().iter().map(|f| f.size()).collect()
}

fn names<F: Fragmentation>(engine: &F) -> Vec<String> {
    engine.fragments().iter().map(|f| f.filename().clone()).collect()
}

#[test]
fn valid_range_is_decided() {
    assert!(is_valid_range(2, START + DAY, START));
    assert!(is_valid_range(1, START, START));
    assert!(!is_valid_range(0, START + DAY, START));
    assert!(!is_valid_range(2, START, START + DAY));
    assert!(!is_valid_range(2, START, MIN_TIME - 1));
    assert!(is_valid_range(2, START, MIN_TIME));
    assert!(is_valid_range(2, MAX_TIME - 1, START));
    assert!(is_valid_range(2, MAX_TIME, MAX_TIME - 1));
    assert!(!is_valid_range(3, MAX_TIME, MAX_TIME - 1));
    assert!(is_valid_range(3, MAX_TIME, MAX_TIME - 2));
    assert!(is_valid_range(usize::MAX, START, START));
    assert!(!is_valid_range(usize::MAX, START + 1, START));
    assert!(is_valid_range(1, i64::MAX, MAX_TIME));
    assert!(!is_valid_range(1, i64::MAX, MAX_TIME + 1));
    assert!(!is_valid_range(2, i64::MAX, MIN_TIME));
    assert!(is_valid_range(1, i64::MAX, MIN_TIME));
}

#[test]
fn last_cut_may_be_the_end_of_the_calendar() {
    let (fragments, _) = build_first_row(2, 3, MAX_TIME, MAX_TIME - 1);
    assert_eq!(
        fragments[0].boundary(),
        &Boundary { lower: MIN_TIME, upper: MAX_TIME }
    );
    assert_eq!(
        fragments[1].boundary(),
        &Boundary { lower: MAX_TIME, upper: MAX_TIME }
    );
    let (fragments, _) = build_first_row(1, 3, i64::MAX, MIN_TIME);
    assert_eq!(
        fragments[0].boundary(),
        &Boundary { lower: MIN_TIME, upper: MAX_TIME }
    );
    let (fragments, _) = build_first_row(3, 3, START, START);
    let bounds: Vec<(i64, i64)> = fragments
        .iter()
        .map(|f| (f.boundary().lower, f.boundary().upper))
        .collect();
    assert_eq!(bounds, vec![(MIN_TIME, START), (START, START), (START, MAX_TIME)]);
}

#[test]
fn first_row_of_one_is_open_at_both_ends() {
    let (fragments, actions) = build_first_row(1, 3, START + DAY, START);
    assert_eq!(fragments.len(), 1);
    assert_eq!(
        fragments[0].boundary(),
        &Boundary { lower: MIN_TIME, upper: MAX_TIME }
    );
    assert_eq!(actions, vec![FileAction::Create { filename: "1.ttl".to_string() }]);
}

#[test]
fn every_date_of_the_range_has_a_leaf() {
    let (engine, _) = one_ary(7, 3, START + 100, START);
    for date in (START - 5)..(START + 110) {
        let holding = engine
            .fragments()
            .iter()
            .filter(|f| f.boundary().is_in_between(date))
            .count();
        let cuts: Vec<i64> = (1..7).map(|i| START + i * 15).collect();
        if cuts.contains(&date) {
            assert_eq!(holding, 2);
        } else {
            assert_eq!(holding, 1);
        }
    }
}

#[test]
fn destination_is_the_first_leaf_that_holds_the_date() {
    let (engine, _) = one_ary(4, 3, START + 100, START);
    assert_eq!(destination(engine.fragments(), START - 1000), 0);
    assert_eq!(destination(engine.fragments(), START + 25), 0);
    assert_eq!(destination(engine.fragments(), START + 26), 1);
    assert_eq!(destination(engine.fragments(), START + 50), 1);
    assert_eq!(destination(engine.fragments(), START + 75), 2);
    assert_eq!(destination(engine.fragments(), START + 76), 3);
    assert_eq!(destination(engine.fragments(), MAX_TIME), 3);
    assert_eq!(destination(engine.fragments(), MAX_TIME + 1), 0);
    assert_eq!(destination(engine.fragments(), i64::MIN), 0);
    assert_eq!(destination(&vec![], 5), 0);
}

#[test]
fn root_states_the_closed_ends_of_every_leaf() {
    let (engine, actions) = one_ary(3, 3, START + 3 * DAY, START);
    match &actions[3] {
        FileAction::WriteRelations { filename, relations } => {
            assert_eq!(filename, "0.ttl");
            let said: Vec<(String, Option<RelationOperator>, Option<String>)> = relations
                .iter()
                .map(|r| (r.node().clone(), *r.relation_type(), r.value().clone()))
                .collect();
            let less = Some(RelationOperator::LessThanRelation);
            let more = Some(RelationOperator::GreaterThanOrEqualToRelation);
            assert_eq!(
                said,
                vec![
                    (format!("{SERVER}1.ttl"), less, Some("2020-01-02T00:00:00.000000000".to_string())),
                    (format!("{SERVER}2.ttl"), less, Some("2020-01-03T00:00:00.000000000".to_string())),
                    (format!("{SERVER}2.ttl"), more, Some("2020-01-02T00:00:00.000000000".to_string())),
                    (format!("{SERVER}3.ttl"), more, Some("2020-01-03T00:00:00.000000000".to_string())),
                ]
            );
            for relation in relations {
                assert_eq!(relation.current_node_iri(), &format!("{SERVER}0.ttl"));
                assert_eq!(relation.path(), &Some(PROPERTY.to_string()));
            }
        }
        other => panic!("unexpected action {other:?}"),
    }
    let again = generate_central_root_node(
        engine.fragments(),
        &PROPERTY.to_string(),
        &SERVER.to_string(),
    );
    assert_eq!(again.filename(), "0.ttl");
    assert_eq!(engine.tree_id(), "http://myTree.org/tree#");
    assert_eq!(engine.server_address(), SERVER);
    assert_eq!(engine.fragmentation_property(), PROPERTY);
    assert_eq!(engine.max_size_cache(), 3);
}

#[test]
fn report_gives_nothing_for_no_member() {
    let (mut engine, actions) = one_ary(2, 5, START + 2 * DAY, START);
    let empty = |name: &str, lower: i64, upper: i64| ReportEntry {
        filename: name.to_string(),
        report: Report { n_member: None, boundary: Boundary { lower, upper } },
    };
    assert_eq!(
        actions[3],
        FileAction::WriteReport {
            filename: "report.json".to_string(),
            entries: vec![
                empty("1.ttl", MIN_TIME, START + DAY),
                empty("2.ttl", START + DAY, MAX_TIME),
            ],
        }
    );
    engine.insert(&member(1, START + DAY + 1)).unwrap();
    engine.insert(&member(2, START + DAY + 2)).unwrap();
    match create_report(engine.fragments()) {
        FileAction::WriteReport { entries, .. } => {
            assert_eq!(entries[0].report.n_member, None);
            assert_eq!(entries[1].report.n_member, Some(2));
            assert_eq!(entries[1].filename, "2.ttl");
        }
        other => panic!("unexpected action {other:?}"),
    }
}

#[test]
fn full_cache_flushes_every_fragment() {
    let (mut engine, _) = one_ary(2, 3, START + 2 * DAY, START);
    assert_eq!(engine.insert(&member(1, START)), Ok(vec![]));
    assert_eq!(engine.insert(&member(2, START + 2 * DAY)), Ok(vec![]));
    assert_eq!(engine.insert(&member(3, START)), Ok(vec![]));
    let actions = engine.insert(&member(4, START)).unwrap();
    assert_eq!(
        actions,
        vec![
            FileAction::AppendMembers {
                filename: "1.ttl".to_string(),
                members: vec![member(1, START), member(3, START)],
            },
            FileAction::AppendMembers {
                filename: "2.ttl".to_string(),
                members: vec![member(2, START + 2 * DAY)],
            },
        ]
    );
    assert_eq!(sizes(&engine), vec![3, 1]);
    let cached: Vec<usize> = engine.fragments().iter().map(|f| f.cache_len()).collect();
    assert_eq!(cached, vec![1, 0]);
}

#[test]
fn one_ary_finalize_drops_the_empty_leaves() {
    let (mut engine, _) = one_ary(3, 5, START + 3 * DAY, START);
    engine.insert(&member(1, START + 2 * DAY + 5)).unwrap();
    let actions = engine.finalize();
    assert_eq!(names(&engine), vec!["3.ttl"]);
    assert_eq!(sizes(&engine), vec![1]);
    assert_eq!(actions.len(), 5);
    assert_eq!(
        actions[0],
        FileAction::AppendMembers {
            filename: "3.ttl".to_string(),
            members: vec![member(1, START + 2 * DAY + 5)],
        }
    );
    assert_eq!(actions[1], FileAction::Remove { filename: "1.ttl".to_string() });
    assert_eq!(actions[2], FileAction::Remove { filename: "2.ttl".to_string() });
    match &actions[3] {
        FileAction::WriteRelations { filename, relations } => {
            assert_eq!(filename, "0.ttl");
            assert_eq!(relations.len(), 1);
            assert_eq!(relations[0].node(), &format!("{SERVER}3.ttl"));
        }
        other => panic!("unexpected action {other:?}"),
    }
    assert_eq!(
        actions[4],
        FileAction::WriteReport {
            filename: "report.json".to_string(),
            entries: vec![ReportEntry {
                filename: "3.ttl".to_string(),
                report: Report {
                    n_member: Some(1),
                    boundary: Boundary { lower: START + 2 * DAY, upper: MAX_TIME },
                },
            }],
        }
    );
}

#[test]
fn summary_has_a_line_per_fragment_and_the_total() {
    let (mut engine, _) = one_ary(2, 5, START + 2 * DAY, START);
    engine.insert(&member(1, START + DAY + 1)).unwrap();
    engine.insert(&member(2, START)).unwrap();
    engine.insert(&member(3, START)).unwrap();
    assert_eq!(
        engine.print_summary(),
        vec![
            "the boundaries of 1.ttl are [2020-01-02 00:00:00, -262143-01-01 00:00:00] and it has 2 members".to_string(),
            "the boundaries of 2.ttl are [+262142-12-31 23:59:59, 2020-01-02 00:00:00] and it has 1 members".to_string(),
            "there is 3 members".to_string(),
        ]
    );
}

#[test]
fn linked_list_chains_the_leaves_that_stay() {
    let (mut engine, actions) = linked(4, 5, START + 4 * DAY, START);
    assert_eq!(actions.len(), 6);
    engine.insert(&member(1, START + 3 * DAY + 1)).unwrap();
    engine.insert(&member(2, START + 1)).unwrap();
    engine.insert(&member(3, START + DAY + 1)).unwrap();
    assert_eq!(sizes(&engine), vec![1, 1, 0, 1]);
    let actions = engine.finalize();
    assert_eq!(names(&engine), vec!["1.ttl", "2.ttl", "4.ttl"]);
    for fragment in engine.fragments() {
        assert_eq!(
            fragment.boundary(),
            &Boundary { lower: MIN_TIME, upper: MAX_TIME }
        );
        assert_eq!(fragment.cache_len(), 0);
    }
    assert_eq!(actions.len(), 8);
    assert!(matches!(&actions[0], FileAction::AppendMembers { filename, .. } if filename == "1.ttl"));
    assert!(matches!(&actions[1], FileAction::AppendMembers { filename, .. } if filename == "2.ttl"));
    assert!(matches!(&actions[2], FileAction::AppendMembers { filename, .. } if filename == "4.ttl"));
    assert_eq!(actions[3], FileAction::Remove { filename: "3.ttl".to_string() });
    match &actions[4] {
        FileAction::WriteRelations { filename, relations } => {
            assert_eq!(filename, "0.ttl");
            assert_eq!(relations.len(), 1);
            assert_eq!(relations[0].node(), &format!("{SERVER}1.ttl"));
            assert_eq!(relations[0].current_node_iri(), &format!("{SERVER}0.ttl"));
            assert_eq!(relations[0].relation_type(), &None);
            assert_eq!(relations[0].value(), &None);
            assert_eq!(relations[0].path(), &None);
        }
        other => panic!("unexpected action {other:?}"),
    }
    match &actions[5] {
        FileAction::AppendRelations { filename, relations } => {
            assert_eq!(filename, "1.ttl");
            assert_eq!(relations.len(), 2);
            assert_eq!(relations[0].node(), &format!("{SERVER}2.ttl"));
            assert_eq!(relations[0].current_node_iri(), &format!("{SERVER}1.ttl"));
            assert_eq!(relations[0].value(), &Some("2020-01-03T00:00:00.000000000".to_string()));
            assert_eq!(relations[1].value(), &Some("2020-01-02T00:00:00.000000000".to_string()));
        }
        other => panic!("unexpected action {other:?}"),
    }
    match &actions[6] {
        FileAction::AppendRelations { filename, relations } => {
            assert_eq!(filename, "2.ttl");
            assert_eq!(relations.len(), 1);
            assert_eq!(relations[0].node(), &format!("{SERVER}4.ttl"));
            assert_eq!(
                relations[0].relation_type(),
                &Some(RelationOperator::GreaterThanOrEqualToRelation)
            );
            assert_eq!(relations[0].value(), &Some("2020-01-04T00:00:00.000000000".to_string()));
        }
        other => panic!("unexpected action {other:?}"),
    }
    match &actions[7] {
        FileAction::WriteReport { entries, .. } => {
            assert_eq!(entries.len(), 3);
            for entry in entries {
                assert_eq!(entry.report.n_member, Some(1));
                assert_eq!(
                    entry.report.boundary,
                    Boundary { lower: MIN_TIME, upper: MAX_TIME }
                );
            }
        }
        other => panic!("unexpected action {other:?}"),
    }
}

#[test]
fn linked_list_without_members_has_no_chain() {
    let (mut engine, _) = linked(3, 5, START + 3 * DAY, START);
    let actions = engine.finalize();
    assert!(engine.fragments().is_empty());
    assert_eq!(actions.len(), 5);
    assert!(matches!(&actions[3], FileAction::WriteRelations { relations, .. } if relations.len() == 1));
    assert_eq!(
        actions[4],
        FileAction::WriteReport { filename: "report.json".to_string(), entries: vec![] }
    );
    assert_eq!(engine.max_size_cache(), 5);
    assert_eq!(engine.tree_id(), "http://myTree.org/tree#");
    assert_eq!(engine.print_summary(), vec!["there is 0 members".to_string()]);
}

#[test]
fn tree_splits_every_level() {
    let (engine, actions) = tree(2, 5, START + 2 * DAY, START, 2);
    assert_eq!(engine.fragments().len(), 2 + 4 + 8);
    assert_eq!(actions.len(), 2 + 1 + 3 * 2 + 3 * 4 + 1);
    let fragments = engine.fragments();
    let halves = |parent: usize, left: usize, right: usize| {
        let whole = fragments[parent].boundary();
        let mid = whole.middle();
        assert_eq!(
            fragments[left].boundary(),
            &Boundary { lower: whole.lower, upper: mid }
        );
        assert_eq!(
            fragments[right].boundary(),
            &Boundary { lower: mid, upper: whole.upper }
        );
    };
    halves(1, 2, 3);
    halves(0, 4, 5);
    halves(5, 6, 7);
    halves(4, 8, 9);
    halves(3, 10, 11);
    halves(2, 12, 13);
    assert_eq!(actions[2].filename(), "0.ttl");
    assert!(matches!(
        &actions[5],
        FileAction::AppendRelations { filename, relations } if filename == "2.ttl" && relations.len() == 2
    ));
    assert!(matches!(
        &actions[8],
        FileAction::AppendRelations { filename, relations } if filename == "1.ttl" && relations.len() == 2
    ));
    assert!(matches!(&actions[actions.len() - 1], FileAction::WriteReport { entries, .. } if entries.len() == 14));
}

#[test]
fn tree_of_depth_nothing_is_its_first_row() {
    let (engine, actions) = tree(3, 5, START + 3 * DAY, START, 0);
    assert_eq!(names(&engine), vec!["1.ttl", "2.ttl", "3.ttl"]);
    assert_eq!(actions.len(), 5);
}

#[test]
fn tree_files_a_member_with_a_fragment_that_holds_its_date() {
    let (mut engine, _) = tree(2, 4, START + 2 * DAY, START, 2);
    for n in 0..50 {
        let date = START + n * 3600;
        let before = sizes(&engine);
        engine.insert(&member(n, date)).unwrap();
        let after = sizes(&engine);
        let grown: Vec<usize> = (0..before.len()).filter(|&i| after[i] != before[i]).collect();
        assert_eq!(grown.len(), 1);
        assert_eq!(after[grown[0]], before[grown[0]] + 1);
        assert!(engine.fragments()[grown[0]].boundary().is_in_between(date));
        for fragment in engine.fragments() {
            assert!(fragment.cache_len() <= 4);
        }
    }
    assert_eq!(sizes(&engine).iter().sum::<usize>(), 50);
    let candidates = engine.candidates(START + DAY);
    assert!(candidates.len() >= 2);
    let actions = engine.finalize();
    assert!(matches!(&actions[actions.len() - 1], FileAction::WriteReport { .. }));
    assert_eq!(engine.fragments().len(), 14);
    assert_eq!(sizes(&engine).iter().sum::<usize>(), 50);
    assert!(engine.fragments().iter().all(|f| f.cache_len() == 0));
}

#[test]
fn tree_refuses_a_date_outside_the_calendar() {
    let (mut engine, _) = tree(2, 4, START + 2 * DAY, START, 1);
    assert_eq!(
        engine.insert(&member(1, MAX_TIME + 1)),
        Err(FragmentationError::NoDestination)
    );
    assert_eq!(engine.candidates(MAX_TIME + 1), Vec::<usize>::new());
    let (mut small, _) = tree(2, 1, START + 2 * DAY, START, 1);
    assert_eq!(
        small.insert(&member(1, START)),
        Err(FragmentationError::CacheFull)
    );
    assert_eq!(
        small.insert(&member(1, MIN_TIME - 1)),
        Err(FragmentationError::NoDestination)
    );
}

#[test]
fn factory_makes_the_strategy_that_is_asked_for() {
    let make = |kind, depth| {
        factory(
            kind,
            2,
            5,
            START + 2 * DAY,
            START,
            SERVER.to_string(),
            PROPERTY.to_string(),
            depth,
            "id".to_string(),
        )
    };
    let (engine, actions) = make(FragmentationTypeName::OneAryTree, None).unwrap();
    assert!(matches!(engine, AnyFragmentation::OneAryTree(_)));
    assert_eq!(engine.strategy(), FragmentationTypeName::OneAryTree);
    assert_eq!(actions.len(), 4);
    let (engine, _) = make(FragmentationTypeName::LinkedList, Some(3)).unwrap();
    assert!(matches!(engine, AnyFragmentation::LinkedList(_)));
    assert_eq!(engine.fragments().len(), 2);
    let (mut engine, actions) = make(FragmentationTypeName::Tree, Some(1)).unwrap();
    assert!(matches!(engine, AnyFragmentation::Tree(_)));
    assert_eq!(engine.fragments().len(), 6);
    assert_eq!(actions.len(), 2 + 1 + 6 + 1);
    assert_eq!(engine.max_size_cache(), 5);
    engine.insert(&member(1, START)).unwrap();
    let published = engine.finalize();
    assert_eq!(published.len(), 2);
    assert_eq!(engine.print_summary().len(), 7);
    assert_eq!(
        make(FragmentationTypeName::Tree, None).err(),
        Some(ErrorKind::CliInvalid)
    );
}

#[test]
fn members_stand_in_their_file_in_the_order_of_arrival() {
    let (mut engine, _) = one_ary(2, 3, START + 2 * DAY, START);
    let dates = [START, START + DAY + 1, START + 1, START + 2, START + DAY + 2, START + 3, START + 4];
    let mut actions = vec![];
    for (n, date) in dates.iter().enumerate() {
        actions.extend(engine.insert(&member(n as i64, *date)).unwrap());
    }
    actions.extend(engine.finalize());
    let written = |name: &str| -> Vec<String> {
        actions
            .iter()
            .flat_map(|a| match a {
                FileAction::AppendMembers { filename, members } if filename == name => {
                    members.iter().map(|m| m.id.clone()).collect::<Vec<String>>()
                }
                _ => vec![],
            })
            .collect()
    };
    assert_eq!(written("1.ttl"), vec!["<m0>", "<m2>", "<m3>", "<m5>", "<m6>"]);
    assert_eq!(written("2.ttl"), vec!["<m1>", "<m4>"]);
    for fragment in engine.fragments() {
        assert!(fragment.cache_len() <= fragment.size());
    }
}
