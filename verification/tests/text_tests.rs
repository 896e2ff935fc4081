use tree_fragmentation::config::{Schema, SchemaValidatorInput, SubjectDescriptor};
use tree_fragmentation::error::{ErrorKind, Failure};
use tree_fragmentation::fragmentation::factory::FragmentationTypeName;
use tree_fragmentation::member::Member;
use tree_fragmentation::parse_datadump::{cache_capacity, check_arguments, progress_due};
use tree_fragmentation::text::{decimal, join};

#[test]
fn decimal_writes_numbers() {
    assert_eq!(decimal(0), "0");
    assert_eq!(decimal(7), "7");
    assert_eq!(decimal(10), "10");
    assert_eq!(decimal(1234567890), "1234567890");
    assert_eq!(decimal(usize::MAX), usize::MAX.to_string());
}

#[test]
fn join_concatenates() {
    assert_eq!(join("http://localhost/", "1.ttl"), "http://localhost/1.ttl");
    assert_eq!(join("", ""), "");
}

#[test]
fn member_is_written_one_property_per_line() {
    let member = Member {
        properties: vec!["<a> <b> <c>".to_string(), "<a> <d> \"e\"".to_string()],
        date: 3,
        id: "<a>".to_string(),
    };
    assert_eq!(member.to_string(), "<a> <b> <c> .\n<a> <d> \"e\" .\n");
    assert_eq!(Member::new(4).to_string(), "");
    assert_eq!(Member::new(4), Member::default());
    assert_eq!(Member::default().date, 0);
    assert_eq!(member.clone(), member);
}

fn input(subject: &str, predicate: &str, member_id: &str, related: &[&str]) -> SchemaValidatorInput {
    SchemaValidatorInput {
        subject: subject.to_string(),
        predicate: predicate.to_string(),
        object: "<o>".to_string(),
        member_id: member_id.to_string(),
        related_subject: related.iter().map(|s| s.to_string()).collect(),
    }
}

#[test]
fn member_rule_wants_the_subject_of_the_member() {
    let rule = Schema {
        subject: SubjectDescriptor::MemberSubject,
        predicate: "<p>".to_string(),
        object: None,
    };
    assert!(rule.is_valid(&input("<m>", "<p>", "<m>", &[])));
    assert!(!rule.is_valid(&input("<x>", "<p>", "<m>", &[])));
    assert!(!rule.is_valid(&input("<m>", "<q>", "<m>", &[])));
}

#[test]
fn linked_rule_wants_a_linked_subject() {
    let rule = Schema {
        subject: SubjectDescriptor::LinkedSubject { subject: "<l>".to_string() },
        predicate: "<p>".to_string(),
        object: None,
    };
    assert!(rule.is_valid(&input("<x>", "<p>", "<m>", &["<x>"])));
    assert!(rule.is_valid(&input("<l>", "<p>", "<m>", &["<k>", "<l>"])));
    assert!(!rule.is_valid(&input("<x>", "<p>", "<m>", &["<l>"])));
    assert!(!rule.is_valid(&input("<m>", "<p>", "<m>", &[])));
    assert!(!rule.is_valid(&input("<l>", "<p>", "<m>", &["<k>"])));
    assert!(!rule.is_valid(&input("<x>", "<q>", "<m>", &["<x>"])));
    assert_eq!(rule.clone(), rule);
}

#[test]
fn cache_capacity_is_a_twentieth_of_the_share() {
    assert_eq!(cache_capacity(1000, 2), 25);
    assert_eq!(cache_capacity(1000, 50), 1);
    assert_eq!(cache_capacity(1000, 51), 1);
    assert_eq!(cache_capacity(0, 1), 1);
    assert_eq!(cache_capacity(39, 1), 1);
    assert_eq!(cache_capacity(40, 1), 2);
    assert_eq!(cache_capacity(usize::MAX, usize::MAX), 1);
    assert_eq!(cache_capacity(usize::MAX, usize::MAX / 20), 1);
}

#[test]
fn progress_is_due_after_every_so_many_members() {
    assert!(progress_due(1000, 1000));
    assert!(progress_due(3000, 1000));
    assert!(!progress_due(999, 1000));
    assert!(progress_due(5, 1));
}

#[test]
fn arguments_are_held_against_each_other() {
    let one_ary = FragmentationTypeName::OneAryTree;
    let tree = FragmentationTypeName::Tree;
    assert_eq!(check_arguments(2, None, one_ary), Ok(()));
    assert_eq!(check_arguments(1000, Some(3), tree), Ok(()));
    assert_eq!(check_arguments(1, None, one_ary), Err(ErrorKind::CliInvalid));
    assert_eq!(check_arguments(0, None, one_ary), Err(ErrorKind::CliInvalid));
    assert_eq!(check_arguments(2, Some(0), one_ary), Err(ErrorKind::CliInvalid));
    assert_eq!(check_arguments(2, None, tree), Err(ErrorKind::CliInvalid));
    assert_eq!(check_arguments(2, Some(1), FragmentationTypeName::LinkedList), Ok(()));
}

#[test]
fn strategies_go_by_their_names() {
    assert_eq!(
        FragmentationTypeName::from_name(&"oneAryTree".to_string()),
        Ok(FragmentationTypeName::OneAryTree)
    );
    assert_eq!(
        FragmentationTypeName::from_name(&"linkedList".to_string()),
        Ok(FragmentationTypeName::LinkedList)
    );
    assert_eq!(
        FragmentationTypeName::from_name(&"tree".to_string()),
        Ok(FragmentationTypeName::Tree)
    );
    assert_eq!(
        FragmentationTypeName::from_name(&"Tree".to_string()),
        Err(ErrorKind::CliInvalid)
    );
    assert_eq!(
        FragmentationTypeName::from_name(&"".to_string()),
        Err(ErrorKind::CliInvalid)
    );
}

#[test]
fn failures_describe_their_kind() {
    let kinds = [
        ErrorKind::ConfigInvalid,
        ErrorKind::CliInvalid,
        ErrorKind::SourceUnreadable,
        ErrorKind::ParseError,
        ErrorKind::SchemaContractViolation,
        ErrorKind::IoError,
        ErrorKind::CacheFull,
    ];
    for kind in kinds {
        let failure = Failure::of(kind);
        assert_eq!(failure.kind, kind);
        assert_eq!(failure.message, kind.to_string());
        assert!(!failure.message.is_empty());
    }
    assert_eq!(
        ErrorKind::CacheFull.to_string(),
        "the member cache is full it has to be materialized"
    );
}
