use tree_fragmentation::fragmentation::action::FileAction;
use tree_fragmentation::fragmentation::one_ary_tree_fragmentation::OneAryTreeFragmentation;
use tree_fragmentation::fragmentation::{Fragmentation, FragmentationError};
use tree_fragmentation::member::Member;
use tree_fragmentation::time::{MAX_TIME, MIN_TIME};

fn member(id: &str, date: i64) -> Member {
    Member {
        properties: vec![format!("<{id}> <http://example.org/p> \"v\"")],
        date,
        id: format!("<{id}>"),
    }
}

fn engine(n: usize, cache: usize, hi: i64, lo: i64) -> (OneAryTreeFragmentation, Vec<FileAction>) {
    OneAryTreeFragmentation::new(
        n,
        cache,
        hi,
        lo,
        "http://localhost:3000/".to_string(),
        "http://example.org/date".to_string(),
        "http://myTree.org/tree#".to_string(),
    )
}

#[test]
fn new_cuts_the_range_into_equal_leaves() {
    let (tree, actions) = engine(4, 10, 110, 10);
    let bounds: Vec<(i64, i64)> = tree
        .fragments()
        .iter()
        .map(|f| (f.boundary().lower, f.boundary().upper))
        .collect();
    assert_eq!(
        bounds,
        vec![(MIN_TIME, 35), (35, 60), (60, 85), (85, MAX_TIME)]
    );
    let names: Vec<String> = tree.fragments().iter().map(|f| f.filename().clone()).collect();
    assert_eq!(names, vec!["1.ttl", "2.ttl", "3.ttl", "4.ttl"]);
    assert_eq!(actions.len(), 6);
    assert_eq!(
        actions[0],
        FileAction::Create {
            filename: "1.ttl".to_string()
        }
    );
    assert_eq!(actions[4].filename(), "0.ttl");
    assert_eq!(actions[5].filename(), "report.json");
}

#[test]
fn increment_is_rounded_up() {
    let (tree, _) = engine(3, 10, 20, 10);
    let bounds: Vec<(i64, i64)> = tree
        .fragments()
        .iter()
        .map(|f| (f.boundary().lower, f.boundary().upper))
        .collect();
    assert_eq!(bounds, vec![(MIN_TIME, 14), (14, 18), (18, MAX_TIME)]);
}

#[test]
fn insert_goes_to_the_first_leaf_that_holds_the_date() {
    let (mut tree, _) = engine(4, 10, 110, 10);
    assert_eq!(tree.insert(&member("a", 35)), Ok(vec![]));
    assert_eq!(tree.insert(&member("b", 36)), Ok(vec![]));
    assert_eq!(tree.insert(&member("c", 1000)), Ok(vec![]));
    let sizes: Vec<usize> = tree.fragments().iter().map(|f| f.size()).collect();
    assert_eq!(sizes, vec![1, 1, 0, 1]);
}

#[test]
fn insert_fails_where_the_cache_has_no_room_at_all() {
    let (mut tree, _) = engine(2, 1, 110, 10);
    assert_eq!(
        tree.insert(&member("a", 35)),
        Err(FragmentationError::CacheFull)
    );
    let (mut tree, _) = engine(2, 0, 110, 10);
    assert_eq!(
        tree.insert(&member("a", 35)),
        Err(FragmentationError::CacheFull)
    );
}
