use tree_fragmentation::fragmentation::action::FileAction;
use tree_fragmentation::fragmentation::fragment::{Boundary, Fragment};
use tree_fragmentation::member::Member;
use tree_fragmentation::time::{MAX_TIME, MIN_TIME};
use tree_fragmentation::tree::RelationOperator;

fn member(n: usize) -> Member {
    Member {
        properties: vec![format!("<m{n}> <p> \"{n}\""), format!("<m{n}> <q> <o>")],
        date: 10,
        id: format!("<m{n}>"),
    }
}

#[test]
fn boundary_holds_its_ends() {
    let boundary = Boundary { lower: 10, upper: 20 };
    assert!(boundary.is_in_between(10));
    assert!(boundary.is_in_between(15));
    assert!(boundary.is_in_between(20));
    assert!(!boundary.is_in_between(9));
    assert!(!boundary.is_in_between(21));
}

#[test]
fn default_boundary_is_open() {
    let boundary = Boundary::default();
    assert_eq!(boundary.upper, i64::MAX);
    assert_eq!(boundary.lower, i64::MIN);
    let s = String::new();
    assert!(boundary.to_relation(&s, &s, &s, &s).is_empty());
}

#[test]
fn boundary_middle_rounds_down() {
    assert_eq!(Boundary { lower: 10, upper: 21 }.middle(), 15);
    assert_eq!(Boundary { lower: -21, upper: -10 }.middle(), -16);
    assert_eq!(Boundary { lower: 7, upper: 7 }.middle(), 7);
    assert_eq!(
        Boundary { lower: i64::MIN, upper: i64::MAX }.middle(),
        -1
    );
}

#[test]
fn to_relation_states_the_closed_ends() {
    let current = "0.ttl".to_string();
    let destination = "3.ttl".to_string();
    let property = "http://example.org/date".to_string();
    let server = "http://localhost:3000/".to_string();
    let both = Boundary { lower: 1577836800, upper: 1577923200 }
        .to_relation(&current, &destination, &property, &server);
    assert_eq!(both.len(), 2);
    assert_eq!(both[0].relation_type(), &Some(RelationOperator::LessThanRelation));
    assert_eq!(both[0].value(), &Some("2020-01-02T00:00:00.000000000".to_string()));
    assert_eq!(both[0].node(), "http://localhost:3000/3.ttl");
    assert_eq!(both[0].current_node_iri(), "http://localhost:3000/0.ttl");
    assert_eq!(both[0].path(), &Some(property.clone()));
    assert_eq!(
        both[1].relation_type(),
        &Some(RelationOperator::GreaterThanOrEqualToRelation)
    );
    assert_eq!(both[1].value(), &Some("2020-01-01T00:00:00.000000000".to_string()));
    assert_ne!(both[0].relation_id(), both[1].relation_id());
    assert_eq!(both[0].relation_id().len(), 36);

    let open_below = Boundary { lower: MIN_TIME, upper: 0 }
        .to_relation(&current, &destination, &property, &server);
    assert_eq!(open_below.len(), 1);
    assert_eq!(open_below[0].relation_type(), &Some(RelationOperator::LessThanRelation));
    let open_above = Boundary { lower: 0, upper: MAX_TIME }
        .to_relation(&current, &destination, &property, &server);
    assert_eq!(open_above.len(), 1);
    assert_eq!(
        open_above[0].relation_type(),
        &Some(RelationOperator::GreaterThanOrEqualToRelation)
    );
    let open = Boundary { lower: MIN_TIME, upper: MAX_TIME }
        .to_relation(&current, &destination, &property, &server);
    assert!(open.is_empty());
}

#[test]
fn boundary_is_shown_upper_end_first() {
    let boundary = Boundary { lower: 1577836800, upper: 1577923200 };
    assert_eq!(
        boundary.to_string(),
        "[2020-01-02 00:00:00, 2020-01-01 00:00:00]"
    );
}

#[test]
fn new_fragment_is_empty_and_asks_for_its_file() {
    let (fragment, action) = Fragment::new("1.ttl".to_string(), 5, 10, 20);
    assert_eq!(fragment.filename(), "1.ttl");
    assert_eq!(fragment.to_string(), "1.ttl");
    assert_eq!(fragment.boundary(), &Boundary { lower: 10, upper: 20 });
    assert_eq!(fragment.len(), 0);
    assert_eq!(fragment.size(), 0);
    assert_eq!(fragment.cache_len(), 0);
    assert_eq!(fragment.max_size_cache(), 5);
    assert_eq!(action, FileAction::Create { filename: "1.ttl".to_string() });
    assert_eq!(action.content(), None);
}

#[test]
fn insert_refuses_when_one_more_would_reach_the_capacity() {
    let (mut fragment, _) = Fragment::new("1.ttl".to_string(), 3, 10, 20);
    assert_eq!(fragment.insert(&member(1)), Ok(()));
    assert_eq!(fragment.insert(&member(2)), Ok(()));
    assert_eq!(
        fragment.insert(&member(3)),
        Err("the member cache is full it has to be materialized")
    );
    assert_eq!(fragment.size(), 2);
    assert_eq!(fragment.cache_len(), 2);
}

#[test]
fn cache_never_exceeds_its_capacity() {
    for capacity in 0..6usize {
        let (mut fragment, _) = Fragment::new("1.ttl".to_string(), capacity, 10, 20);
        for n in 0..20 {
            if fragment.insert(&member(n)).is_err() {
                fragment.materialize();
                let _ = fragment.insert(&member(n));
            }
            assert!(fragment.cache_len() <= capacity);
        }
    }
}

#[test]
fn materialize_hands_the_cache_over_once() {
    let (mut fragment, _) = Fragment::new("1.ttl".to_string(), 5, 10, 20);
    assert_eq!(fragment.materialize(), None);
    fragment.insert(&member(1)).unwrap();
    fragment.insert(&member(2)).unwrap();
    let action = fragment.materialize().unwrap();
    assert_eq!(
        action,
        FileAction::AppendMembers {
            filename: "1.ttl".to_string(),
            members: vec![member(1), member(2)]
        }
    );
    assert_eq!(
        action.content(),
        Some("<m1> <p> \"1\" .\n<m1> <q> <o> .\n<m2> <p> \"2\" .\n<m2> <q> <o> .\n".to_string())
    );
    assert_eq!(fragment.cache_len(), 0);
    assert_eq!(fragment.size(), 2);
    assert_eq!(fragment.materialize(), None);
}

#[test]
fn clear_file_asks_for_the_removal() {
    let (fragment, _) = Fragment::new("7.ttl".to_string(), 5, 10, 20);
    assert_eq!(
        fragment.clear_file(),
        FileAction::Remove { filename: "7.ttl".to_string() }
    );
}

#[test]
fn widening_opens_both_ends() {
    let (mut fragment, _) = Fragment::new("7.ttl".to_string(), 5, 10, 20);
    fragment.up_boundary_infinity();
    assert_eq!(
        fragment.boundary(),
        &Boundary { lower: MIN_TIME, upper: MAX_TIME }
    );
}

#[test]
fn split_gives_two_halves_and_two_relations() {
    let (mut fragment, _) = Fragment::new("1.ttl".to_string(), 5, 1577836800, 1577923200);
    fragment.insert(&member(1)).unwrap();
    let property = "http://example.org/date".to_string();
    let server = "http://localhost:3000/".to_string();
    let (left, right, actions) = fragment.create_two_sub_fragment(&property, &server);
    assert_eq!(left.boundary(), &Boundary { lower: 1577836800, upper: 1577880000 });
    assert_eq!(right.boundary(), &Boundary { lower: 1577880000, upper: 1577923200 });
    assert_eq!(left.size(), 0);
    assert_eq!(right.max_size_cache(), 5);
    assert!(left.filename().ends_with(".ttl"));
    assert!(right.filename().ends_with(".ttl"));
    assert_ne!(left.filename(), right.filename());
    assert_eq!(fragment.cache_len(), 0);
    assert_eq!(fragment.size(), 1);
    assert_eq!(actions.len(), 4);
    assert_eq!(
        actions[0],
        FileAction::AppendMembers { filename: "1.ttl".to_string(), members: vec![member(1)] }
    );
    assert_eq!(actions[1], FileAction::Create { filename: left.filename().clone() });
    assert_eq!(actions[2], FileAction::Create { filename: right.filename().clone() });
    match &actions[3] {
        FileAction::AppendRelations { filename, relations } => {
            assert_eq!(filename, "1.ttl");
            assert_eq!(relations.len(), 2);
            assert_eq!(relations[0].relation_type(), &Some(RelationOperator::LessThanRelation));
            assert_eq!(relations[0].node(), &format!("{server}{}", left.filename()));
            assert_eq!(
                relations[1].relation_type(),
                &Some(RelationOperator::GreaterThanOrEqualToRelation)
            );
            assert_eq!(relations[1].node(), &format!("{server}{}", right.filename()));
            for relation in relations {
                assert_eq!(relation.value(), &Some("2020-01-01T12:00:00.000000000".to_string()));
                assert_eq!(relation.current_node_iri(), "http://localhost:3000/1.ttl");
                assert_eq!(relation.path(), &Some(property.clone()));
            }
        }
        other => panic!("unexpected action {other:?}"),
    }
}

#[test]
fn split_into_uses_the_names_it_is_given() {
    let (mut fragment, _) = Fragment::new("1.ttl".to_string(), 5, 0, 100);
    let (left, right, actions) = fragment.split_into(
        &"p".to_string(),
        &"s/".to_string(),
        "l.ttl".to_string(),
        "r.ttl".to_string(),
        "a".to_string(),
        "b".to_string(),
    );
    assert_eq!(left.filename(), "l.ttl");
    assert_eq!(right.filename(), "r.ttl");
    assert_eq!(actions.len(), 3);
    match &actions[2] {
        FileAction::AppendRelations { relations, .. } => {
            assert_eq!(relations[0].relation_id(), "a");
            assert_eq!(relations[1].relation_id(), "b");
            assert_eq!(relations[0].node(), "s/l.ttl");
            assert_eq!(relations[1].node(), "s/r.ttl");
        }
        other => panic!("unexpected action {other:?}"),
    }
}

#[test]
fn fragment_clone_is_equal() {
    let (mut fragment, _) = Fragment::new("1.ttl".to_string(), 5, 0, 100);
    fragment.insert(&member(1)).unwrap();
    assert_eq!(fragment.clone(), fragment);
}
