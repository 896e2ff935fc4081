//! The balanced tree: a row of leaves, split again and again into halves.

use super::account::{
    lemma_flush_accounts, lemma_nothing_concat, lemma_written_concat, lemma_written_nothing,
    writes_no_member, written,
};
use super::action::{
    action_outlines, action_views, ActionOutline, FileAction, FileActionView, lemma_views_concat,
    outlines_of,
};
use super::fragment::{
    bound_link, clone_fragments, Fragment, fragment_views, FragmentView, is_turtle_name,
};
use super::one_ary_tree_fragmentation::{build_first_row, first_row, valid_range};
use super::{
    all_flushed, covers_calendar, lemma_prefix_covers, create_report, creations, engine_wf, filed, files_at, filing_actions, flush_all,
    flush_all_actions, Fragmentation, FragmentationError, FragmentationView, fragments_bounded,
    fragments_wf, generate_central_root_node, has_destination, insert_at, lemma_all_flushed,
    lemma_bounded_writable, lemma_total_of_empty, report_entries, report_name, root_links,
    root_name, summary, total_size,
};
use crate::member::{Member, MemberView};
use crate::tree::RelationOperator;
use rand::{Rng, SeedableRng};
use vstd::multiset::*;
use vstd::prelude::*;

verus! {

/// The generator of `rand` that picks among fragments, carried through
/// unread.
#[verifier::external_type_specification]
#[verifier::external_body]
pub struct ExStdRng(rand::rngs::StdRng);

/// Makes a generator with `rand`'s `SeedableRng::from_entropy`. Nothing is
/// claimed of it: it is seeded by the machine.
#[verifier::external_body]
pub(crate) fn entropy_generator() -> (r: rand::rngs::StdRng) {
    rand::rngs::StdRng::from_entropy()
}

/// Draws an index below `n` with `rand`'s `Rng::gen_range`. Trusted: the
/// value lies in the range that was asked for. An empty range, on which
/// `gen_range` panics, is excluded.
#[verifier::external_body]
pub(crate) fn pick_index(generator: &mut rand::rngs::StdRng, n: usize) -> (i: usize)
    requires
        n > 0,
    ensures
        i < n,
{
    generator.gen_range(0..n)
}

/// The `k`-th pair of `children` holds the halves of the `k`-th parent from
/// the end: the left half, then the right, in files with new names.
pub open spec fn halves_at(parents: Seq<FragmentView>, children: Seq<FragmentView>, k: int) -> bool {
    let parent = parents[parents.len() - 1 - k];
    &&& children[2 * k] == parent.left_half(children[2 * k].filename)
    &&& children[2 * k + 1] == parent.right_half(children[2 * k + 1].filename)
    &&& is_turtle_name(children[2 * k].filename)
    &&& is_turtle_name(children[2 * k + 1].filename)
}

/// `children` are the halves of `parents`: the parents were split from the
/// last to the first, and each split gave the left half, then the right.
pub open spec fn is_split_of(parents: Seq<FragmentView>, children: Seq<FragmentView>) -> bool {
    &&& children.len() == 2 * parents.len()
    &&& forall|k: int| 0 <= k < parents.len() ==> #[trigger] halves_at(parents, children, k)
}

/// The `k`-th three of `outlines` record the split of the `k`-th parent from
/// the end: the files of its halves are created, and the relations to them
/// are appended to its file.
pub open spec fn recorded_at(
    parents: Seq<FragmentView>,
    children: Seq<FragmentView>,
    outlines: Seq<ActionOutline>,
    k: int,
    fragmentation_property: Seq<char>,
    server_address: Seq<char>,
) -> bool {
    &&& outlines[3 * k] == (ActionOutline::Create { filename: children[2 * k].filename })
    &&& outlines[3 * k + 1] == (ActionOutline::Create { filename: children[2 * k + 1].filename })
    &&& outlines[3 * k + 2] == split_record(
        parents[parents.len() - 1 - k],
        children[2 * k].filename,
        children[2 * k + 1].filename,
        fragmentation_property,
        server_address,
    )
}

/// `rest` holds the fragments below `row`, level by level: the halves of the
/// row, then the halves of those, `depth` times.
pub open spec fn is_tree_below(row: Seq<FragmentView>, rest: Seq<FragmentView>, depth: nat) -> bool
    decreases depth,
{
    if depth == 0 {
        rest.len() == 0
    } else {
        let width: int = 2 * (row.len() as int);
        &&& rest.len() >= width
        &&& is_split_of(row, rest.take(width))
        &&& is_tree_below(rest.take(width), rest.skip(width), (depth - 1) as nat)
    }
}

/// The lowest level of the tree that `rest` holds below `row`.
pub open spec fn lowest_level(row: Seq<FragmentView>, rest: Seq<FragmentView>, depth: nat) -> Seq<
    FragmentView,
>
    decreases depth,
{
    if depth == 0 {
        row
    } else {
        let width: int = 2 * (row.len() as int);
        lowest_level(rest.take(width), rest.skip(width), (depth - 1) as nat)
    }
}

/// What the file of a split fragment receives: the relations to its halves.
pub open spec fn split_record(parent: FragmentView, left: Seq<char>, right: Seq<char>, fragmentation_property: Seq<char>, server_address: Seq<char>) -> ActionOutline {
    ActionOutline::AppendRelations {
        filename: parent.filename,
        relations: seq![
            bound_link(
                parent.boundary.mid(),
                fragmentation_property,
                server_address,
                left,
                parent.filename,
                RelationOperator::LessThanRelation,
            ),
            bound_link(
                parent.boundary.mid(),
                fragmentation_property,
                server_address,
                right,
                parent.filename,
                RelationOperator::GreaterThanOrEqualToRelation,
            ),
        ],
    }
}

/// The actions that split one level, apart from the identifiers of the
/// relations: for each parent, from the last to the first, the files of its
/// halves are created and the relations to them are appended to its file.
pub open spec fn round_plan(
    parents: Seq<FragmentView>,
    children: Seq<FragmentView>,
    fragmentation_property: Seq<char>,
    server_address: Seq<char>,
) -> Seq<ActionOutline> {
    Seq::new(
        (3 * parents.len()) as nat,
        |j: int|
            {
                let k = j / 3;
                if j % 3 == 0 {
                    ActionOutline::Create { filename: children[2 * k].filename }
                } else if j % 3 == 1 {
                    ActionOutline::Create { filename: children[2 * k + 1].filename }
                } else {
                    split_record(
                        parents[parents.len() - 1 - k],
                        children[2 * k].filename,
                        children[2 * k + 1].filename,
                        fragmentation_property,
                        server_address,
                    )
                }
            },
    )
}

/// The actions that split the levels below `row`, level by level.
pub open spec fn split_plan(
    row: Seq<FragmentView>,
    rest: Seq<FragmentView>,
    depth: nat,
    fragmentation_property: Seq<char>,
    server_address: Seq<char>,
) -> Seq<ActionOutline>
    decreases depth,
{
    if depth == 0 {
        Seq::empty()
    } else {
        let width: int = 2 * (row.len() as int);
        round_plan(row, rest.take(width), fragmentation_property, server_address) + split_plan(
            rest.take(width),
            rest.skip(width),
            (depth - 1) as nat,
            fragmentation_property,
            server_address,
        )
    }
}

/// A tree grows by one level: where `next` holds the halves of the lowest
/// level, the fragments below the row, followed by `next`, form a tree that
/// is one level deeper, and its plan is the old plan followed by one more
/// round.
pub proof fn lemma_tree_grows(
    row: Seq<FragmentView>,
    rest: Seq<FragmentView>,
    depth: nat,
    next: Seq<FragmentView>,
    fragmentation_property: Seq<char>,
    server_address: Seq<char>,
)
    requires
        is_tree_below(row, rest, depth),
        is_split_of(lowest_level(row, rest, depth), next),
    ensures
        is_tree_below(row, rest + next, depth + 1),
        lowest_level(row, rest + next, depth + 1) == next,
        split_plan(row, rest + next, depth + 1, fragmentation_property, server_address)
            == split_plan(row, rest, depth, fragmentation_property, server_address) + round_plan(
            lowest_level(row, rest, depth),
            next,
            fragmentation_property,
            server_address,
        ),
    decreases depth,
{
    let width: int = 2 * (row.len() as int);
    if depth == 0 {
        assert(rest + next =~= next);
        assert(next.take(width) =~= next);
        assert(next.skip(width) =~= Seq::<FragmentView>::empty());
        assert(is_tree_below(next, Seq::<FragmentView>::empty(), 0));
        assert(lowest_level(next, Seq::<FragmentView>::empty(), 0) == next);
        assert(lowest_level(row, rest + next, 1) == lowest_level(
            (rest + next).take(width),
            (rest + next).skip(width),
            0,
        ));
        assert(split_plan(
            next,
            Seq::<FragmentView>::empty(),
            0,
            fragmentation_property,
            server_address,
        ) =~= Seq::<ActionOutline>::empty());
        assert(split_plan(row, rest + next, 1, fragmentation_property, server_address)
            =~= round_plan(row, next, fragmentation_property, server_address));
    } else {
        lemma_tree_grows(
            rest.take(width),
            rest.skip(width),
            (depth - 1) as nat,
            next,
            fragmentation_property,
            server_address,
        );
        assert((rest + next).take(width) =~= rest.take(width));
        assert((rest + next).skip(width) =~= rest.skip(width) + next);
        assert(lowest_level(row, rest + next, depth + 1) == lowest_level(
            (rest + next).take(width),
            (rest + next).skip(width),
            depth,
        ));
        assert(split_plan(row, rest + next, depth + 1, fragmentation_property, server_address)
            =~= split_plan(row, rest, depth, fragmentation_property, server_address) + round_plan(
            lowest_level(row, rest, depth),
            next,
            fragmentation_property,
            server_address,
        ));
    }
}

/// The fragments are new: without members, with empty caches of the given
/// capacity, and with ordered intervals within the calendar.
pub open spec fn all_new(fragments: Seq<FragmentView>, max_size_cache: usize) -> bool {
    forall|i: int|
        0 <= i < fragments.len() ==> {
            &&& (#[trigger] fragments[i]).size == 0
            &&& fragments[i].cache.len() == 0
            &&& fragments[i].max_size_cache == max_size_cache
            &&& fragments[i].boundary.bounded()
        }
}

/// Splits every fragment of a level into its halves, from the last fragment
/// to the first. Returns the halves, and the actions that create their files
/// and append the relations to them to the files of the split fragments.
pub fn split_level(
    parents: Vec<Fragment>,
    max_size_cache: usize,
    fragmentation_property: &String,
    server_address: &String,
) -> (r: (Vec<Fragment>, Vec<FileAction>))
    requires
        all_new(fragment_views(parents@), max_size_cache),
    ensures
        is_split_of(fragment_views(parents@), fragment_views(r.0@)),
        all_new(fragment_views(r.0@), max_size_cache),
        action_outlines(r.1@) == round_plan(
            fragment_views(parents@),
            fragment_views(r.0@),
            fragmentation_property@,
            server_address@,
        ),
{
    let ghost all = fragment_views(parents@);
    let n = parents.len();
    let mut stack = parents;
    let mut children: Vec<Fragment> = Vec::new();
    let mut actions: Vec<FileAction> = Vec::new();
    assert(action_outlines(actions@) =~= Seq::<ActionOutline>::empty());
    while stack.len() > 0
        invariant
            n == all.len(),
            stack.len() <= n,
            all_new(all, max_size_cache),
            fragment_views(stack@) == all.take(stack.len() as int),
            children.len() == 2 * (n - stack.len()),
            action_outlines(actions@).len() == 3 * (n - stack.len()),
            all_new(fragment_views(children@), max_size_cache),
            forall|k: int|
                0 <= k < n - stack.len() ==> #[trigger] halves_at(
                    all,
                    fragment_views(children@),
                    k,
                ),
            forall|k: int|
                0 <= k < n - stack.len() ==> #[trigger] recorded_at(
                    all,
                    fragment_views(children@),
                    action_outlines(actions@),
                    k,
                    fragmentation_property@,
                    server_address@,
                ),
        decreases stack.len(),
    {
        let ghost done = n - stack.len();
        let ghost children_before = fragment_views(children@);
        let ghost outlines_before = action_outlines(actions@);
        let ghost actions_before = actions@;
        let ghost stack_before = fragment_views(stack@);
        let popped = stack.pop();
        let mut fragment = popped.unwrap();
        let ghost parent = fragment@;
        proof {
            assert(parent == stack_before[stack_before.len() - 1]);
            assert(parent == all[n - 1 - done]);
            assert(fragment_views(stack@) =~= all.take(stack.len() as int));
        }
        let (fragment_1, fragment_2, mut split) = fragment.create_two_sub_fragment(
            fragmentation_property,
            server_address,
        );
        let ghost split_actions = split@;
        children.push(fragment_1);
        children.push(fragment_2);
        actions.append(&mut split);
        proof {
            let children_now = fragment_views(children@);
            let outlines_now = action_outlines(actions@);
            assert(children_now =~= children_before.push(fragment_1@).push(fragment_2@));
            lemma_views_concat(actions_before, split_actions);
            assert(outlines_of(parent.flush_actions()) =~= Seq::<ActionOutline>::empty());
            assert(action_outlines(split_actions).len() == 3);
            assert(outlines_now =~= outlines_before + action_outlines(split_actions));
            assert forall|k: int| 0 <= k < done + 1 implies #[trigger] halves_at(
                all,
                children_now,
                k,
            ) by {
                if k < done {
                    assert(halves_at(all, children_before, k));
                }
            }
            assert forall|k: int| 0 <= k < done + 1 implies #[trigger] recorded_at(
                all,
                children_now,
                outlines_now,
                k,
                fragmentation_property@,
                server_address@,
            ) by {
                if k < done {
                    assert(recorded_at(
                        all,
                        children_before,
                        outlines_before,
                        k,
                        fragmentation_property@,
                        server_address@,
                    ));
                }
            }
        }
    }
    proof {
        let kids = fragment_views(children@);
        let outlines = action_outlines(actions@);
        let plan = round_plan(all, kids, fragmentation_property@, server_address@);
        assert forall|j: int| 0 <= j < outlines.len() implies outlines[j] == plan[j] by {
            let k = j / 3;
            assert(recorded_at(all, kids, outlines, k, fragmentation_property@, server_address@));
        }
        assert(outlines =~= plan);
    }
    (children, actions)
}

/// The balanced tree: a row of leaves under a root document, and below each
/// leaf its two halves, and below those theirs, down to a given depth. Every
/// fragment of the tree, split or not, takes members.
#[derive(Debug)]
pub struct Tree {
    fragments: Vec<Fragment>,
    max_size_cache: usize,
    random_generator: rand::rngs::StdRng,
    server_address: String,
    fragmentation_property: String,
}

impl View for Tree {
    type V = FragmentationView;

    closed spec fn view(&self) -> FragmentationView {
        FragmentationView {
            fragments: fragment_views(self.fragments@),
            max_size_cache: self.max_size_cache,
            server_address: self.server_address@,
            fragmentation_property: self.fragmentation_property@,
        }
    }
}

/// The actions of a new tree, apart from the identifiers of the relations:
/// the files of the first row are created, the root document is written for
/// the first row, the levels are split one after the other, and the summary
/// is written for all fragments.
pub open spec fn tree_outline(
    fragments: Seq<FragmentView>,
    n_fragments: usize,
    depth: usize,
    fragmentation_property: Seq<char>,
    server_address: Seq<char>,
) -> Seq<ActionOutline> {
    let row = fragments.take(n_fragments as int);
    outlines_of(creations(row)) + seq![
        ActionOutline::WriteRelations {
            filename: root_name(),
            relations: root_links(row, fragmentation_property, server_address),
        },
    ] + split_plan(
        row,
        fragments.skip(n_fragments as int),
        depth as nat,
        fragmentation_property,
        server_address,
    ) + seq![
        ActionOutline::WriteReport { filename: report_name(), entries: report_entries(fragments) },
    ]
}

/// The places of the fragments whose interval holds the date, in the order
/// of the fragments.
pub open spec fn holders(fragments: Seq<FragmentView>, date: i64) -> Seq<usize>
    decreases fragments.len(),
{
    if fragments.len() == 0 {
        Seq::empty()
    } else if fragments.last().boundary.contains(date) {
        holders(fragments.drop_last(), date).push((fragments.len() - 1) as usize)
    } else {
        holders(fragments.drop_last(), date)
    }
}

/// The holders of a date are places of fragments that hold the date, and
/// there is one as soon as some fragment holds the date.
pub proof fn lemma_holders(fragments: Seq<FragmentView>, date: i64)
    requires
        fragments.len() <= usize::MAX,
    ensures
        forall|k: int|
            0 <= k < holders(fragments, date).len() ==> 0 <= #[trigger] holders(
                fragments,
                date,
            )[k] < fragments.len() && fragments[holders(fragments, date)[k] as int].boundary.contains(
                date,
            ),
        holders(fragments, date).len() > 0 <==> has_destination(fragments, date),
    decreases fragments.len(),
{
    if fragments.len() > 0 {
        let rest = fragments.drop_last();
        lemma_holders(rest, date);
        let found = holders(fragments, date);
        assert forall|k: int| 0 <= k < found.len() implies 0 <= #[trigger] found[k]
            < fragments.len() && fragments[found[k] as int].boundary.contains(date) by {
            if k < holders(rest, date).len() {
                assert(found[k] == holders(rest, date)[k]);
                assert(rest[found[k] as int] == fragments[found[k] as int]);
            }
        }
        if has_destination(fragments, date) {
            let i = choose|i: int|
                0 <= i < fragments.len() && (#[trigger] fragments[i]).boundary.contains(date);
            if i < rest.len() {
                assert(rest[i].boundary.contains(date));
            }
        }
        if found.len() > 0 {
            assert(fragments[found[0] as int].boundary.contains(date));
        }
    } else {
        assert(!has_destination(fragments, date));
    }
}

/// Below a row of a tree that is at least one level deep, each fragment of
/// the row has its two halves: the `k`-th fragment from the end of the row
/// has the `k`-th pair of the fragments below, the left half from the lower
/// end to the middle and the right half from the middle to the upper end,
/// both without members.
pub proof fn lemma_tree_halves(
    row: Seq<FragmentView>,
    rest: Seq<FragmentView>,
    depth: nat,
    k: int,
)
    requires
        is_tree_below(row, rest, depth),
        depth >= 1,
        0 <= k < row.len(),
    ensures
        rest.len() >= 2 * row.len(),
        rest[2 * k] == row[row.len() - 1 - k].left_half(rest[2 * k].filename),
        rest[2 * k + 1] == row[row.len() - 1 - k].right_half(rest[2 * k + 1].filename),
        rest[2 * k].size == 0 && rest[2 * k + 1].size == 0,
{
    let width: int = 2 * (row.len() as int);
    assert(halves_at(row, rest.take(width), k));
    assert(rest.take(width)[2 * k] == rest[2 * k]);
    assert(rest.take(width)[2 * k + 1] == rest[2 * k + 1]);
}

/// The split of the `k`-th fragment from the end of the row of a tree writes
/// exactly two relations into the file of that fragment: that the members of
/// the left half lie below the middle, and those of the right half at or
/// above it.
pub proof fn lemma_tree_records(
    row: Seq<FragmentView>,
    rest: Seq<FragmentView>,
    depth: nat,
    k: int,
    fragmentation_property: Seq<char>,
    server_address: Seq<char>,
)
    requires
        depth >= 1,
        0 <= k < row.len(),
        rest.len() >= 2 * row.len(),
    ensures
        split_plan(row, rest, depth, fragmentation_property, server_address).len() >= 3
            * row.len(),
        split_plan(row, rest, depth, fragmentation_property, server_address)[3 * k + 2]
            == split_record(
            row[row.len() - 1 - k],
            rest[2 * k].filename,
            rest[2 * k + 1].filename,
            fragmentation_property,
            server_address,
        ),
{
    let width: int = 2 * (row.len() as int);
    let round = round_plan(row, rest.take(width), fragmentation_property, server_address);
    assert(round.len() == 3 * row.len());
    assert(round[3 * k + 2] == split_record(
        row[row.len() - 1 - k],
        rest.take(width)[2 * k].filename,
        rest.take(width)[2 * k + 1].filename,
        fragmentation_property,
        server_address,
    ));
    assert(rest.take(width)[2 * k] == rest[2 * k]);
    assert(rest.take(width)[2 * k + 1] == rest[2 * k + 1]);
}

/// New fragments are well formed and hold no members.
pub proof fn lemma_all_new(fragments: Seq<FragmentView>, max_size_cache: usize)
    requires
        all_new(fragments, max_size_cache),
    ensures
        fragments_wf(fragments, max_size_cache),
        fragments_bounded(fragments),
        total_size(fragments) == 0,
{
    assert forall|i: int| 0 <= i < fragments.len() implies (#[trigger] fragments[i]).wf()
        && fragments[i].max_size_cache == max_size_cache by {
        assert(fragments[i].size == 0);
    }
    assert forall|i: int| 0 <= i < fragments.len() implies (
    #[trigger] fragments[i]).boundary.bounded() by {
        assert(fragments[i].size == 0);
    }
    lemma_total_of_empty(fragments);
}

/// Splitting the levels of a tree writes no member.
pub proof fn lemma_split_plan_writes_nothing(
    row: Seq<FragmentView>,
    rest: Seq<FragmentView>,
    depth: nat,
    fragmentation_property: Seq<char>,
    server_address: Seq<char>,
)
    ensures
        writes_no_member(split_plan(row, rest, depth, fragmentation_property, server_address)),
    decreases depth,
{
    if depth > 0 {
        let width: int = 2 * (row.len() as int);
        lemma_split_plan_writes_nothing(
            rest.take(width),
            rest.skip(width),
            (depth - 1) as nat,
            fragmentation_property,
            server_address,
        );
        lemma_nothing_concat(
            round_plan(row, rest.take(width), fragmentation_property, server_address),
            split_plan(
                rest.take(width),
                rest.skip(width),
                (depth - 1) as nat,
                fragmentation_property,
                server_address,
            ),
        );
    }
}

/// Laying a tree out writes no member.
pub proof fn lemma_tree_outline_writes_nothing(
    fragments: Seq<FragmentView>,
    n_fragments: usize,
    depth: usize,
    fragmentation_property: Seq<char>,
    server_address: Seq<char>,
)
    ensures
        written(
            tree_outline(fragments, n_fragments, depth, fragmentation_property, server_address),
        ) == Multiset::<MemberView>::empty(),
{
    let row = fragments.take(n_fragments as int);
    let creating = outlines_of(creations(row));
    let root = seq![
        ActionOutline::WriteRelations {
            filename: root_name(),
            relations: root_links(row, fragmentation_property, server_address),
        },
    ];
    let splitting = split_plan(
        row,
        fragments.skip(n_fragments as int),
        depth as nat,
        fragmentation_property,
        server_address,
    );
    let report = seq![
        ActionOutline::WriteReport { filename: report_name(), entries: report_entries(fragments) },
    ];
    lemma_split_plan_writes_nothing(
        row,
        fragments.skip(n_fragments as int),
        depth as nat,
        fragmentation_property,
        server_address,
    );
    lemma_nothing_concat(creating, root);
    lemma_nothing_concat(creating + root, splitting);
    lemma_nothing_concat(creating + root + splitting, report);
    lemma_written_nothing(creating + root + splitting + report);
}

impl Tree {
    /// A new tree: a first row of `n_fragments` leaves that cut the range of
    /// dates into equal parts, the first and the last leaf open-ended, and
    /// below it `dept` levels, each made of the halves of the fragments of
    /// the level above. The actions create the files, write the root document
    /// for the first row and the relations from each split fragment to its
    /// halves, and write the summary.
    pub fn new(
        n_fragments: usize,
        max_size_cache: usize,
        highest_date: i64,
        lowest_date: i64,
        server_address: String,
        fragmentation_property: String,
        dept: usize,
    ) -> (r: (Self, Vec<FileAction>))
        requires
            valid_range(n_fragments, highest_date, lowest_date),
        ensures
            r.0@.max_size_cache == max_size_cache,
            r.0@.server_address == server_address@,
            r.0@.fragmentation_property == fragmentation_property@,
            r.0@.fragments.len() >= n_fragments,
            r.0@.fragments.take(n_fragments as int) == first_row(
                n_fragments,
                max_size_cache,
                highest_date,
                lowest_date,
            ),
            is_tree_below(
                r.0@.fragments.take(n_fragments as int),
                r.0@.fragments.skip(n_fragments as int),
                dept as nat,
            ),
            all_new(r.0@.fragments, max_size_cache),
            engine_wf(r.0@),
            covers_calendar(r.0@.fragments),
            action_outlines(r.1@) == tree_outline(
                r.0@.fragments,
                n_fragments,
                dept,
                fragmentation_property@,
                server_address@,
            ),
    {
        let (mut fragments, mut actions) = build_first_row(
            n_fragments,
            max_size_cache,
            highest_date,
            lowest_date,
        );
        let ghost row = fragment_views(fragments@);
        let ghost created = actions@;
        proof {
            lemma_bounded_writable(row);
        }
        let root = generate_central_root_node(&fragments, &fragmentation_property, &server_address);
        actions.push(root);
        let ghost head = outlines_of(creations(row)) + seq![
            ActionOutline::WriteRelations {
                filename: root_name(),
                relations: root_links(row, fragmentation_property@, server_address@),
            },
        ];
        let ghost mut rest: Seq<FragmentView> = Seq::empty();
        proof {
            lemma_views_concat(created, seq![root]);
            assert(actions@ =~= created + seq![root]);
            assert(action_outlines(seq![root]) =~= seq![root@.outline()]);
            assert(fragment_views(fragments@) =~= row + rest);
            assert(action_outlines(actions@) =~= head + split_plan(
                row,
                rest,
                0,
                fragmentation_property@,
                server_address@,
            ));
            assert(all_new(row, max_size_cache));
        }
        let mut fragment_to_divide = clone_fragments(&fragments);
        let mut round: usize = 0;
        while round < dept
            invariant
                round <= dept,
                row.len() == n_fragments,
                fragment_views(fragments@) == row + rest,
                is_tree_below(row, rest, round as nat),
                lowest_level(row, rest, round as nat) == fragment_views(fragment_to_divide@),
                all_new(row + rest, max_size_cache),
                all_new(fragment_views(fragment_to_divide@), max_size_cache),
                action_outlines(actions@) == head + split_plan(
                    row,
                    rest,
                    round as nat,
                    fragmentation_property@,
                    server_address@,
                ),
            decreases dept - round,
        {
            let ghost level = fragment_views(fragment_to_divide@);
            let ghost actions_before = actions@;
            let (children, mut split) = split_level(
                fragment_to_divide,
                max_size_cache,
                &fragmentation_property,
                &server_address,
            );
            let ghost split_actions = split@;
            let ghost next = fragment_views(children@);
            let mut copies = clone_fragments(&children);
            let ghost copied = copies@;
            let ghost fragments_before = fragments@;
            fragments.append(&mut copies);
            actions.append(&mut split);
            proof {
                lemma_tree_grows(
                    row,
                    rest,
                    round as nat,
                    next,
                    fragmentation_property@,
                    server_address@,
                );
                lemma_views_concat(actions_before, split_actions);
                assert(fragment_views(fragments_before + copied) =~= fragment_views(
                    fragments_before,
                ) + fragment_views(copied));
                assert(row + (rest + next) =~= (row + rest) + next);
                assert(all_new(row + (rest + next), max_size_cache)) by {
                    assert forall|i: int| 0 <= i < (row + (rest + next)).len() implies {
                        &&& (#[trigger] (row + (rest + next))[i]).size == 0
                        &&& (row + (rest + next))[i].cache.len() == 0
                        &&& (row + (rest + next))[i].max_size_cache == max_size_cache
                        &&& (row + (rest + next))[i].boundary.bounded()
                    } by {
                        if i < (row + rest).len() {
                            assert((row + (rest + next))[i] == (row + rest)[i]);
                            assert((row + rest)[i].size == 0);
                        } else {
                            assert((row + (rest + next))[i] == next[i - (row + rest).len()]);
                            assert(next[i - (row + rest).len()].size == 0);
                        }
                    }
                }
                assert(head + split_plan(
                    row,
                    rest,
                    round as nat,
                    fragmentation_property@,
                    server_address@,
                ) + round_plan(level, next, fragmentation_property@, server_address@) =~= head
                    + (split_plan(
                    row,
                    rest,
                    round as nat,
                    fragmentation_property@,
                    server_address@,
                ) + round_plan(level, next, fragmentation_property@, server_address@)));
                rest = rest + next;
            }
            fragment_to_divide = children;
            round += 1;
        }
        let report = create_report(&fragments);
        let ghost splitting = actions@;
        actions.push(report);
        proof {
            let all = fragment_views(fragments@);
            assert(all.take(n_fragments as int) =~= row);
            assert(all.skip(n_fragments as int) =~= rest);
            lemma_views_concat(splitting, seq![report]);
            assert(actions@ =~= splitting + seq![report]);
            assert(action_outlines(seq![report]) =~= seq![report@.outline()]);
            lemma_all_new(all, max_size_cache);
            lemma_prefix_covers(all, n_fragments as int);
        }
        let tree = Tree {
            fragments,
            max_size_cache,
            random_generator: entropy_generator(),
            server_address,
            fragmentation_property,
        };
        (tree, actions)
    }

    /// Writes all caches out.
    pub fn materialize(&mut self) -> (r: Vec<FileAction>)
        ensures
            final(self)@ == (FragmentationView {
                fragments: all_flushed(old(self)@.fragments),
                ..old(self)@
            }),
            action_views(r@) == flush_all_actions(old(self)@.fragments),
    {
        flush_all(&mut self.fragments)
    }

    /// The places of the fragments whose interval holds the date, in the
    /// order of the fragments.
    pub fn candidates(&self, date: i64) -> (r: Vec<usize>)
        ensures
            r@ == holders(self@.fragments, date),
    {
        let ghost views = self@.fragments;
        let mut pos_candidate: Vec<usize> = Vec::new();
        let mut i: usize = 0;
        assert(pos_candidate@ =~= holders(views.take(0), date));
        while i < self.fragments.len()
            invariant
                i <= self.fragments.len(),
                views == self@.fragments,
                pos_candidate@ == holders(views.take(i as int), date),
            decreases self.fragments.len() - i,
        {
            proof {
                assert(views.take(i + 1).drop_last() =~= views.take(i as int));
                assert(views.take(i + 1).last() == views[i as int]);
            }
            if self.fragments[i].boundary().is_in_between(date) {
                pos_candidate.push(i);
            }
            i += 1;
        }
        assert(views.take(i as int) =~= views);
        pos_candidate
    }
}

impl Fragmentation for Tree {
    open spec fn model(&self) -> FragmentationView {
        self@
    }

    /// Files a member with one of the fragments whose interval holds its
    /// date, picked at random. Where that fragment's cache is full, all
    /// caches are written out first. Filing fails where no fragment holds
    /// the date, and where the capacity leaves no room for a single member;
    /// nothing changes then.
    fn insert(&mut self, member: &Member) -> (r: Result<Vec<FileAction>, FragmentationError>)
        ensures
            match r {
                Ok(actions) => {
                    &&& old(self)@.max_size_cache >= 2
                    &&& exists|pos: int|
                        {
                            &&& 0 <= pos < old(self)@.fragments.len()
                            &&& (#[trigger] old(self)@.fragments[pos]).boundary.contains(
                                member.date,
                            )
                            &&& final(self)@ == (FragmentationView {
                                fragments: filed(old(self)@.fragments, pos, member@),
                                ..old(self)@
                            })
                            &&& action_views(actions@) == filing_actions(
                                old(self)@.fragments,
                                pos,
                            )
                        }
                },
                Err(FragmentationError::NoDestination) => !has_destination(
                    old(self)@.fragments,
                    member.date,
                ) && final(self)@ == old(self)@,
                Err(FragmentationError::CacheFull) => has_destination(
                    old(self)@.fragments,
                    member.date,
                ) && old(self)@.max_size_cache <= 1 && final(self)@ == old(self)@,
            },
    {
        let ghost before = self@.fragments;
        let pos_candidate = self.candidates(member.date);
        let count = self.fragments.len();
        proof {
            assert(before.len() == count);
            lemma_holders(before, member.date);
        }
        if pos_candidate.len() == 0 {
            return Err(FragmentationError::NoDestination);
        }
        let choice = pick_index(&mut self.random_generator, pos_candidate.len());
        let pos = pos_candidate[choice];
        assert(before[pos as int].wf());
        let ghost old_view = self@;
        let r = insert_at(&mut self.fragments, pos, member);
        proof {
            assert forall|i: int| 0 <= i < self@.fragments.len() implies (
            #[trigger] self@.fragments[i]).boundary.bounded() by {
                assert(before[i].boundary.bounded());
            }
            if r is Ok {
                assert(files_at(
                    old_view,
                    self@,
                    action_views(r->Ok_0@),
                    pos as int,
                    member@,
                ));
            }
        }
        r
    }

    /// Publishes the tree: the caches are written out and the summary is
    /// written. Every fragment stays, with or without members.
    fn finalize(&mut self) -> (r: Vec<FileAction>)
        ensures
            final(self)@ == (FragmentationView {
                fragments: all_flushed(old(self)@.fragments),
                ..old(self)@
            }),
            action_views(r@) == flush_all_actions(old(self)@.fragments) + seq![
                FileActionView::WriteReport {
                    filename: report_name(),
                    entries: report_entries(final(self)@.fragments),
                },
            ],
    {
        let ghost before = self@.fragments;
        let mut actions = self.materialize();
        let ghost flushing = actions@;
        let report = create_report(&self.fragments);
        actions.push(report);
        proof {
            lemma_all_flushed(before, self.max_size_cache);
            lemma_views_concat(flushing, seq![report]);
            assert(actions@ =~= flushing + seq![report]);
            assert(action_views(seq![report]) =~= seq![report@]);
            let reporting = action_outlines(seq![report]);
            assert(reporting =~= seq![report@.outline()]);
            lemma_flush_accounts(before);
            lemma_written_nothing(reporting);
            lemma_written_concat(action_outlines(flushing), reporting);
            assert(written(action_outlines(flushing)).add(Multiset::<MemberView>::empty())
                =~= written(action_outlines(flushing)));
        }
        actions
    }

    fn max_size_cache(&self) -> (r: usize) {
        self.max_size_cache
    }

    fn fragments(&self) -> (r: &Vec<Fragment>) {
        &self.fragments
    }

    fn print_summary(&self) -> (r: Vec<String>) {
        summary(&self.fragments)
    }
}

} // verus!
