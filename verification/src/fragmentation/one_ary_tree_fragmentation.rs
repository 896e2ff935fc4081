//! The one-ary tree: a row of leaves under a single root.

use super::account::{
    cached, lemma_flush_accounts, lemma_nothing_concat, lemma_removals_write_nothing,
    lemma_written_concat, lemma_written_nothing, written,
};
use super::action::{
    action_outlines, action_views, ActionOutline, FileAction, FileActionView, lemma_views_concat,
    outlines_of,
};
use super::fragment::{Fragment, fragment_views, FragmentView};
use super::{
    all_flushed, all_widened, covers_calendar, create_report, creations, destination, engine_wf,
    filed, filed_all, files_at, filing_actions, filing_all_actions, flush_all, flush_all_actions,
    Fragmentation, FragmentationError, FragmentationView, fragments_bounded, fragments_wf,
    generate_central_root_node, has_destination, insert_at, is_destination, lemma_all_flushed,
    lemma_bounded_writable, lemma_destination_unique, lemma_publication_writes_nothing,
    lemma_survivors, lemma_total_of_empty, publication, rebalance, removals, summary, survivors,
    total_size, widen_all,
};
use crate::member::{Member, member_views, MemberView};
use crate::text::{decimal, decimal_text, join};
use crate::time::{MAX_TIME, max_time, min_time, MIN_TIME};
use vstd::arithmetic::div_mod::lemma_fundamental_div_mod;
use vstd::multiset::*;
use vstd::prelude::*;
use vstd::string::*;

verus! {

/// A range of dates that can be cut into that many leaves: there is at least
/// one leaf, the range is ordered and starts within the calendar, and the
/// point at which the last leaf starts is a date of the calendar; so are then
/// the ends of all leaves.
pub open spec fn valid_range(n_fragments: usize, highest_date: i64, lowest_date: i64) -> bool {
    &&& n_fragments >= 1
    &&& MIN_TIME <= lowest_date <= highest_date
    &&& cut(n_fragments - 1, n_fragments, highest_date, lowest_date) <= MAX_TIME
}

/// The width of a leaf: the width of the range divided by the number of
/// leaves, rounded up.
pub open spec fn increment(n_fragments: usize, highest_date: i64, lowest_date: i64) -> int {
    (highest_date - lowest_date + n_fragments - 1) / (n_fragments as int)
}

/// The point at which leaf `i` starts, were it not for the open ends.
pub open spec fn cut(i: int, n_fragments: usize, highest_date: i64, lowest_date: i64) -> int {
    lowest_date + i * increment(n_fragments, highest_date, lowest_date)
}

/// The interval's lower end of leaf `i`: open for the first leaf.
pub open spec fn leaf_lower(i: int, n_fragments: usize, highest_date: i64, lowest_date: i64) -> i64 {
    if i == 0 {
        MIN_TIME
    } else {
        cut(i, n_fragments, highest_date, lowest_date) as i64
    }
}

/// The interval's upper end of leaf `i`: open for the last leaf.
pub open spec fn leaf_upper(i: int, n_fragments: usize, highest_date: i64, lowest_date: i64) -> i64 {
    if i == n_fragments - 1 {
        MAX_TIME
    } else {
        cut(i + 1, n_fragments, highest_date, lowest_date) as i64
    }
}

/// The name of the file of leaf `i`: the leaves are numbered from one.
pub open spec fn leaf_name(i: int) -> Seq<char> {
    decimal_text((i + 1) as nat) + ".ttl"@
}

/// Leaf `i` of a new row.
pub open spec fn leaf(
    i: int,
    n_fragments: usize,
    max_size_cache: usize,
    highest_date: i64,
    lowest_date: i64,
) -> FragmentView {
    FragmentView::fresh(
        leaf_name(i),
        max_size_cache,
        leaf_lower(i, n_fragments, highest_date, lowest_date),
        leaf_upper(i, n_fragments, highest_date, lowest_date),
    )
}

/// A new row of leaves that cut the range into equal parts.
pub open spec fn first_row(
    n_fragments: usize,
    max_size_cache: usize,
    highest_date: i64,
    lowest_date: i64,
) -> Seq<FragmentView> {
    Seq::new(
        n_fragments as nat,
        |i: int| leaf(i, n_fragments, max_size_cache, highest_date, lowest_date),
    )
}

/// The points at which the leaves of a valid range start rise with the index
/// and are dates of the calendar.
pub proof fn lemma_cut_bounds(i: int, n_fragments: usize, highest_date: i64, lowest_date: i64)
    requires
        valid_range(n_fragments, highest_date, lowest_date),
        0 <= i < n_fragments,
    ensures
        increment(n_fragments, highest_date, lowest_date) >= 0,
        MIN_TIME <= lowest_date <= cut(i, n_fragments, highest_date, lowest_date) <= MAX_TIME,
        cut(i, n_fragments, highest_date, lowest_date) <= cut(
            i + 1,
            n_fragments,
            highest_date,
            lowest_date,
        ),
        cut(i + 1, n_fragments, highest_date, lowest_date) == cut(
            i,
            n_fragments,
            highest_date,
            lowest_date,
        ) + increment(n_fragments, highest_date, lowest_date),
{
    let n = n_fragments as int;
    let a = highest_date - lowest_date + n - 1;
    let inc = increment(n_fragments, highest_date, lowest_date);
    lemma_fundamental_div_mod(a, n);
    assert(a == n * inc + a % n);
    assert(0 <= a % n < n);
    assert(inc >= 0) by (nonlinear_arith)
        requires
            a == n * inc + a % n,
            0 <= a % n < n,
            a >= 0,
            n >= 1,
    ;
    assert(i * inc <= (n - 1) * inc) by (nonlinear_arith)
        requires
            0 <= i <= n - 1,
            inc >= 0,
    ;
    assert(i * inc >= 0) by (nonlinear_arith)
        requires
            0 <= i,
            inc >= 0,
    ;
    assert((i + 1) * inc == i * inc + inc) by (nonlinear_arith);
}

/// The cuts of a valid range rise with the index.
pub proof fn lemma_cut_monotonic(
    i: int,
    j: int,
    n_fragments: usize,
    highest_date: i64,
    lowest_date: i64,
)
    requires
        valid_range(n_fragments, highest_date, lowest_date),
        0 <= i <= j < n_fragments,
    ensures
        cut(i, n_fragments, highest_date, lowest_date) <= cut(
            j,
            n_fragments,
            highest_date,
            lowest_date,
        ),
    decreases j - i,
{
    if i < j {
        lemma_cut_bounds(i, n_fragments, highest_date, lowest_date);
        lemma_cut_monotonic(i + 1, j, n_fragments, highest_date, lowest_date);
    }
}

/// A date of the calendar at or above the lower end of leaf `i` lies in leaf
/// `i` or in a later leaf.
pub proof fn lemma_covered_from(
    i: int,
    date: i64,
    n_fragments: usize,
    max_size_cache: usize,
    highest_date: i64,
    lowest_date: i64,
)
    requires
        valid_range(n_fragments, highest_date, lowest_date),
        0 <= i < n_fragments,
        MIN_TIME <= date <= MAX_TIME,
        leaf_lower(i, n_fragments, highest_date, lowest_date) <= date,
    ensures
        has_destination(
            first_row(n_fragments, max_size_cache, highest_date, lowest_date),
            date,
        ),
    decreases n_fragments - i,
{
    let row = first_row(n_fragments, max_size_cache, highest_date, lowest_date);
    if date <= leaf_upper(i, n_fragments, highest_date, lowest_date) {
        assert(row[i].boundary.contains(date));
    } else {
        lemma_cut_bounds(i + 1, n_fragments, highest_date, lowest_date);
        lemma_covered_from(i + 1, date, n_fragments, max_size_cache, highest_date, lowest_date);
    }
}

/// Every date of the calendar lies in some leaf of a new row.
pub proof fn lemma_first_row_covers(
    date: i64,
    n_fragments: usize,
    max_size_cache: usize,
    highest_date: i64,
    lowest_date: i64,
)
    requires
        valid_range(n_fragments, highest_date, lowest_date),
        MIN_TIME <= date <= MAX_TIME,
    ensures
        has_destination(
            first_row(n_fragments, max_size_cache, highest_date, lowest_date),
            date,
        ),
{
    lemma_covered_from(0, date, n_fragments, max_size_cache, highest_date, lowest_date);
}

/// A new row of leaves covers the calendar, and so the range that it cuts.
pub proof fn lemma_first_row_covers_calendar(
    n_fragments: usize,
    max_size_cache: usize,
    highest_date: i64,
    lowest_date: i64,
)
    requires
        valid_range(n_fragments, highest_date, lowest_date),
    ensures
        covers_calendar(first_row(n_fragments, max_size_cache, highest_date, lowest_date)),
{
    assert forall|date: i64| MIN_TIME <= date <= MAX_TIME implies #[trigger] has_destination(
        first_row(n_fragments, max_size_cache, highest_date, lowest_date),
        date,
    ) by {
        lemma_first_row_covers(date, n_fragments, max_size_cache, highest_date, lowest_date);
    }
}

/// The date is one of the points at which two neighbouring leaves meet.
pub open spec fn is_inner_cut(
    date: i64,
    n_fragments: usize,
    highest_date: i64,
    lowest_date: i64,
) -> bool {
    exists|i: int|
        1 <= i < n_fragments && date == #[trigger] cut(i, n_fragments, highest_date, lowest_date)
}

/// A date of the calendar lies in exactly one leaf of a new row, unless it is
/// a point at which two neighbouring leaves meet: such a point lies in both.
pub proof fn lemma_first_row_partitions(
    date: i64,
    n_fragments: usize,
    max_size_cache: usize,
    highest_date: i64,
    lowest_date: i64,
)
    requires
        valid_range(n_fragments, highest_date, lowest_date),
        MIN_TIME <= date <= MAX_TIME,
        !is_inner_cut(date, n_fragments, highest_date, lowest_date),
    ensures
        ({
            let row = first_row(n_fragments, max_size_cache, highest_date, lowest_date);
            &&& has_destination(row, date)
            &&& forall|i: int, j: int|
                0 <= i < row.len() && 0 <= j < row.len() && (#[trigger] row[i]).boundary.contains(
                    date,
                ) && (#[trigger] row[j]).boundary.contains(date) ==> i == j
        }),
{
    let row = first_row(n_fragments, max_size_cache, highest_date, lowest_date);
    lemma_first_row_covers(date, n_fragments, max_size_cache, highest_date, lowest_date);
    assert forall|i: int, j: int|
        0 <= i < row.len() && 0 <= j < row.len() && (#[trigger] row[i]).boundary.contains(date) && (
        #[trigger] row[j]).boundary.contains(date) implies i == j by {
        if i < j {
            lemma_cut_monotonic(i + 1, j, n_fragments, highest_date, lowest_date);
            lemma_cut_bounds(i + 1, n_fragments, highest_date, lowest_date);
            lemma_cut_bounds(j, n_fragments, highest_date, lowest_date);
            assert(date == cut(i + 1, n_fragments, highest_date, lowest_date));
        } else if j < i {
            lemma_cut_monotonic(j + 1, i, n_fragments, highest_date, lowest_date);
            lemma_cut_bounds(j + 1, n_fragments, highest_date, lowest_date);
            lemma_cut_bounds(i, n_fragments, highest_date, lowest_date);
            assert(date == cut(j + 1, n_fragments, highest_date, lowest_date));
        }
    }
}

/// The leaves of a new row hold no members.
pub proof fn lemma_first_row_is_new(
    n_fragments: usize,
    max_size_cache: usize,
    highest_date: i64,
    lowest_date: i64,
)
    ensures
        total_size(first_row(n_fragments, max_size_cache, highest_date, lowest_date)) == 0,
{
    lemma_total_of_empty(first_row(n_fragments, max_size_cache, highest_date, lowest_date));
}

/// The width of a leaf, computed: the width of the range divided by the
/// number of leaves, rounded up.
fn leaf_width(n_fragments: usize, highest_date: i64, lowest_date: i64) -> (width: i128)
    requires
        n_fragments >= 1,
        lowest_date <= highest_date,
    ensures
        width == increment(n_fragments, highest_date, lowest_date),
        width >= 0,
{
    let span: i128 = highest_date as i128 - lowest_date as i128;
    let count: i128 = n_fragments as i128;
    let width: i128 = (span + count - 1) / count;
    proof {
        let a = highest_date - lowest_date + n_fragments - 1;
        let n = n_fragments as int;
        lemma_fundamental_div_mod(a, n);
        assert(a / n >= 0) by (nonlinear_arith)
            requires
                a == n * (a / n) + a % n,
                0 <= a % n < n,
                a >= 0,
                n >= 1,
        ;
    }
    width
}

/// Tells whether a range of dates can be cut into that many leaves.
pub fn is_valid_range(n_fragments: usize, highest_date: i64, lowest_date: i64) -> (r: bool)
    ensures
        r == valid_range(n_fragments, highest_date, lowest_date),
{
    let lowest = min_time();
    let highest = max_time();
    if n_fragments < 1 || lowest_date < lowest || lowest_date > highest_date {
        return false;
    }
    if n_fragments == 1 {
        assert(cut(0, n_fragments, highest_date, lowest_date) == lowest_date) by (nonlinear_arith)
            requires
                cut(0, n_fragments, highest_date, lowest_date) == lowest_date + 0 * increment(
                    n_fragments,
                    highest_date,
                    lowest_date,
                ),
        ;
        return lowest_date <= highest;
    }
    let width = leaf_width(n_fragments, highest_date, lowest_date);
    let room: i128 = highest as i128 - lowest_date as i128;
    let ghost last = n_fragments - 1;
    if width > room {
        assert(last * width >= width) by (nonlinear_arith)
            requires
                last >= 1,
                width >= 0,
        ;
        return false;
    }
    let others: i128 = n_fragments as i128 - 1;
    assert(others * width <= 0xffff_ffff_ffff_ffff * 0x1000_0000_0000) by (nonlinear_arith)
        requires
            0 <= others <= 0xffff_ffff_ffff_ffff,
            0 <= width <= 0x1000_0000_0000,
    ;
    let reach: i128 = others * width;
    reach <= room
}

/// Builds a new row of leaves, with the actions that create their files.
pub fn build_first_row(
    n_fragments: usize,
    max_size_cache: usize,
    highest_date: i64,
    lowest_date: i64,
) -> (r: (Vec<Fragment>, Vec<FileAction>))
    requires
        valid_range(n_fragments, highest_date, lowest_date),
    ensures
        fragment_views(r.0@) == first_row(n_fragments, max_size_cache, highest_date, lowest_date),
        action_views(r.1@) == creations(
            first_row(n_fragments, max_size_cache, highest_date, lowest_date),
        ),
        fragments_wf(fragment_views(r.0@), max_size_cache),
        fragments_bounded(fragment_views(r.0@)),
        covers_calendar(fragment_views(r.0@)),
        total_size(fragment_views(r.0@)) == 0,
{
    let ghost row = first_row(n_fragments, max_size_cache, highest_date, lowest_date);
    proof {
        lemma_first_row_covers_calendar(n_fragments, max_size_cache, highest_date, lowest_date);
    }
    let mut fragments: Vec<Fragment> = Vec::new();
    let mut actions: Vec<FileAction> = Vec::new();
    let width = leaf_width(n_fragments, highest_date, lowest_date);
    let step: i64 = if n_fragments >= 2 {
        proof {
            lemma_cut_bounds(0, n_fragments, highest_date, lowest_date);
            lemma_cut_bounds(1, n_fragments, highest_date, lowest_date);
        }
        width as i64
    } else {
        0
    };
    let mut current_lower_bound: i64 = lowest_date;
    let mut i: usize = 0;
    proof {
        lemma_cut_bounds(0, n_fragments, highest_date, lowest_date);
    }
    while i < n_fragments
        invariant
            valid_range(n_fragments, highest_date, lowest_date),
            i <= n_fragments,
            row == first_row(n_fragments, max_size_cache, highest_date, lowest_date),
            n_fragments >= 2 ==> step == increment(n_fragments, highest_date, lowest_date),
            i < n_fragments ==> current_lower_bound == cut(
                i as int,
                n_fragments,
                highest_date,
                lowest_date,
            ),
            fragments.len() == i,
            actions.len() == i,
            forall|k: int| 0 <= k < i ==> (#[trigger] fragments@[k])@ == row[k],
            forall|k: int|
                0 <= k < i ==> (#[trigger] actions@[k])@ == (FileActionView::Create {
                    filename: row[k].filename,
                }),
            forall|k: int| 0 <= k < i ==> (#[trigger] row[k]).boundary.bounded(),
            total_size(fragment_views(fragments@)) == 0,
        decreases n_fragments - i,
    {
        proof {
            lemma_cut_bounds(i as int, n_fragments, highest_date, lowest_date);
            if i + 1 < n_fragments {
                lemma_cut_bounds(i + 1, n_fragments, highest_date, lowest_date);
            }
        }
        let name = join(decimal(i + 1).as_str(), ".ttl");
        let lower = if i == 0 {
            min_time()
        } else {
            current_lower_bound
        };
        let upper = if i == n_fragments - 1 {
            max_time()
        } else {
            current_lower_bound + step
        };
        let ghost before = fragment_views(fragments@);
        let (fragment, action) = Fragment::new(name, max_size_cache, lower, upper);
        assert(fragment@ == row[i as int]);
        fragments.push(fragment);
        actions.push(action);
        proof {
            assert(fragment_views(fragments@).drop_last() =~= before);
        }
        if i + 1 < n_fragments {
            current_lower_bound = current_lower_bound + step;
        }
        i += 1;
    }
    assert(fragment_views(fragments@) =~= row);
    assert(action_views(actions@) =~= creations(row));
    (fragments, actions)
}

/// The one-ary tree: the leaves of one row, each with an interval of dates,
/// under a root document that tells the interval of each leaf.
#[derive(Debug)]
pub struct OneAryTreeFragmentation {
    fragments: Vec<Fragment>,
    max_size_cache: usize,
    server_address: String,
    fragmentation_property: String,
    tree_id: String,
}

/// The actions of a new one-ary tree, apart from the identifiers of the
/// relations: the files of the leaves are created, then the root document
/// and the summary are written.
pub open spec fn construction_outline(
    fragments: Seq<FragmentView>,
    fragmentation_property: Seq<char>,
    server_address: Seq<char>,
) -> Seq<ActionOutline> {
    outlines_of(creations(fragments)) + publication(
        fragments,
        fragmentation_property,
        server_address,
    )
}

/// The actions that publish a one-ary tree, apart from the identifiers of the
/// relations: the caches are written out, the files of the leaves without
/// members are deleted, and the root document and the summary are written for
/// the leaves that stay.
pub open spec fn publication_outline(
    fragments: Seq<FragmentView>,
    fragmentation_property: Seq<char>,
    server_address: Seq<char>,
) -> Seq<ActionOutline> {
    outlines_of(flush_all_actions(fragments)) + outlines_of(removals(all_flushed(fragments)))
        + publication(
        survivors(all_flushed(fragments)),
        fragmentation_property,
        server_address,
    )
}

/// Laying a one-ary tree out writes no member.
pub proof fn lemma_construction_writes_nothing(
    fragments: Seq<FragmentView>,
    fragmentation_property: Seq<char>,
    server_address: Seq<char>,
)
    ensures
        written(construction_outline(fragments, fragmentation_property, server_address))
            == Multiset::<MemberView>::empty(),
{
    lemma_publication_writes_nothing(fragments, fragmentation_property, server_address);
    lemma_nothing_concat(
        outlines_of(creations(fragments)),
        publication(fragments, fragmentation_property, server_address),
    );
    lemma_written_nothing(
        construction_outline(fragments, fragmentation_property, server_address),
    );
}

/// Publishing a one-ary tree writes the members that waited in the caches,
/// and no other.
pub proof fn lemma_publication_accounts(
    fragments: Seq<FragmentView>,
    fragmentation_property: Seq<char>,
    server_address: Seq<char>,
)
    ensures
        written(publication_outline(fragments, fragmentation_property, server_address)) == cached(
            fragments,
        ),
{
    let flushing = outlines_of(flush_all_actions(fragments));
    let removing = outlines_of(removals(all_flushed(fragments)));
    let publishing = publication(
        survivors(all_flushed(fragments)),
        fragmentation_property,
        server_address,
    );
    lemma_flush_accounts(fragments);
    lemma_removals_write_nothing(all_flushed(fragments));
    lemma_publication_writes_nothing(
        survivors(all_flushed(fragments)),
        fragmentation_property,
        server_address,
    );
    lemma_nothing_concat(removing, publishing);
    lemma_written_nothing(removing + publishing);
    lemma_written_concat(flushing, removing + publishing);
    assert(flushing + removing + publishing =~= flushing + (removing + publishing));
    assert(written(flushing).add(Multiset::<MemberView>::empty()) =~= written(flushing));
}

impl View for OneAryTreeFragmentation {
    type V = FragmentationView;

    closed spec fn view(&self) -> FragmentationView {
        FragmentationView {
            fragments: fragment_views(self.fragments@),
            max_size_cache: self.max_size_cache,
            server_address: self.server_address@,
            fragmentation_property: self.fragmentation_property@,
        }
    }
}

impl OneAryTreeFragmentation {
    /// A new one-ary tree of `n_fragments` leaves that cut the range of dates
    /// into equal parts, the first and the last leaf open-ended. The actions
    /// create the files of the leaves and write the root document and the
    /// summary.
    pub fn new(
        n_fragments: usize,
        max_size_cache: usize,
        highest_date: i64,
        lowest_date: i64,
        server_address: String,
        fragmentation_property: String,
        tree_id: String,
    ) -> (r: (Self, Vec<FileAction>))
        requires
            valid_range(n_fragments, highest_date, lowest_date),
        ensures
            r.0@ == (FragmentationView {
                fragments: first_row(n_fragments, max_size_cache, highest_date, lowest_date),
                max_size_cache,
                server_address: server_address@,
                fragmentation_property: fragmentation_property@,
            }),
            engine_wf(r.0@),
            covers_calendar(r.0@.fragments),
            r.0.spec_tree_id() == tree_id@,
            action_outlines(r.1@) == construction_outline(
                r.0@.fragments,
                fragmentation_property@,
                server_address@,
            ),
    {
        let (fragments, mut actions) = build_first_row(
            n_fragments,
            max_size_cache,
            highest_date,
            lowest_date,
        );
        let ghost created = actions@;
        proof {
            lemma_bounded_writable(fragment_views(fragments@));
        }
        let root = generate_central_root_node(&fragments, &fragmentation_property, &server_address);
        let report = create_report(&fragments);
        actions.push(root);
        actions.push(report);
        proof {
            assert(actions@ =~= created + seq![root, report]);
            lemma_views_concat(created, seq![root, report]);
            assert(action_outlines(seq![root, report]) =~= publication(
                fragment_views(fragments@),
                fragmentation_property@,
                server_address@,
            ));
        }
        let engine = OneAryTreeFragmentation {
            fragments,
            max_size_cache,
            server_address,
            fragmentation_property,
            tree_id,
        };
        (engine, actions)
    }

    /// The identifier reserved for the tree.
    pub closed spec fn spec_tree_id(&self) -> Seq<char> {
        self.tree_id@
    }

    /// The identifier reserved for the tree.
    pub fn tree_id(&self) -> (r: &String)
        ensures
            r@ == self.spec_tree_id(),
    {
        &self.tree_id
    }

    /// The address under which the documents will be served.
    pub fn server_address(&self) -> (r: &String)
        ensures
            r@ == self@.server_address,
    {
        &self.server_address
    }

    /// The property by whose date the members are filed.
    pub fn fragmentation_property(&self) -> (r: &String)
        ensures
            r@ == self@.fragmentation_property,
    {
        &self.fragmentation_property
    }

    /// Writes all caches out.
    pub fn materialize(&mut self) -> (r: Vec<FileAction>)
        ensures
            final(self)@ == (FragmentationView {
                fragments: all_flushed(old(self)@.fragments),
                ..old(self)@
            }),
            final(self).spec_tree_id() == old(self).spec_tree_id(),
            action_views(r@) == flush_all_actions(old(self)@.fragments),
    {
        flush_all(&mut self.fragments)
    }

    /// Widens the interval of every leaf so that it accepts every date.
    pub fn set_up_boundary_to_infinity(&mut self)
        ensures
            final(self)@ == (FragmentationView {
                fragments: all_widened(old(self)@.fragments),
                ..old(self)@
            }),
            final(self).spec_tree_id() == old(self).spec_tree_id(),
    {
        widen_all(&mut self.fragments)
    }

    /// Files the members, one by one in their order, each with the first
    /// leaf whose interval holds its date, or with the first leaf of all
    /// where none does. Where the caches have no room for a single member,
    /// the first member is refused and nothing changes.
    pub fn insert_all(&mut self, members: &Vec<Member>) -> (r: Result<
        Vec<FileAction>,
        FragmentationError,
    >)
        requires
            engine_wf(old(self)@),
            old(self)@.fragments.len() > 0,
            total_size(old(self)@.fragments) + members.len() <= usize::MAX,
        ensures
            engine_wf(final(self)@),
            final(self).spec_tree_id() == old(self).spec_tree_id(),
            r is Ok <==> members.len() == 0 || old(self)@.max_size_cache >= 2,
            match r {
                Ok(actions) => {
                    &&& final(self)@ == (FragmentationView {
                        fragments: filed_all(old(self)@.fragments, member_views(members@)),
                        ..old(self)@
                    })
                    &&& action_views(actions@) == filing_all_actions(
                        old(self)@.fragments,
                        member_views(members@),
                    )
                    &&& total_size(final(self)@.fragments) == total_size(old(self)@.fragments)
                        + members.len()
                },
                Err(e) => e == FragmentationError::CacheFull && final(self)@ == old(self)@,
            },
    {
        let ghost before = self@;
        let ghost all = member_views(members@);
        let mut actions: Vec<FileAction> = Vec::new();
        let mut i: usize = 0;
        assert(all.take(0) =~= Seq::<MemberView>::empty());
        assert(action_views(actions@) =~= Seq::<FileActionView>::empty());
        while i < members.len()
            invariant
                i <= members.len(),
                before == old(self)@,
                all == member_views(members@),
                engine_wf(self@),
                self.spec_tree_id() == old(self).spec_tree_id(),
                before.fragments.len() > 0,
                total_size(before.fragments) + members.len() <= usize::MAX,
                total_size(self@.fragments) == total_size(before.fragments) + i,
                self@ == (FragmentationView {
                    fragments: filed_all(before.fragments, all.take(i as int)),
                    ..before
                }),
                action_views(actions@) == filing_all_actions(before.fragments, all.take(i as int)),
                i > 0 ==> before.max_size_cache >= 2,
            decreases members.len() - i,
        {
            let ghost current = self@;
            let ghost done = actions@;
            let outcome = self.insert(&members[i]);
            match outcome {
                Ok(mut filing) => {
                    let ghost added = filing@;
                    actions.append(&mut filing);
                    proof {
                        let pos = choose|pos: int|
                            {
                                &&& is_destination(current.fragments, members@[i as int].date, pos)
                                &&& self@ == (FragmentationView {
                                    fragments: filed(current.fragments, pos, members@[i as int]@),
                                    ..current
                                })
                                &&& action_views(added) == filing_actions(current.fragments, pos)
                            };
                        lemma_destination_unique(current.fragments, members@[i as int].date, pos);
                        assert(all.take(i + 1).drop_last() =~= all.take(i as int));
                        assert(all.take(i + 1).last() == members@[i as int]@);
                        lemma_views_concat(done, added);
                    }
                },
                Err(e) => {
                    assert(i == 0);
                    return Err(e);
                },
            }
            i += 1;
        }
        assert(all.take(i as int) =~= all);
        Ok(actions)
    }

    /// Drops the leaves without members and deletes their files. Leaves
    /// with few members are left as they are: none is merged with another.
    pub fn rebalance(&mut self) -> (r: Vec<FileAction>)
        ensures
            final(self)@ == (FragmentationView {
                fragments: survivors(old(self)@.fragments),
                ..old(self)@
            }),
            final(self).spec_tree_id() == old(self).spec_tree_id(),
            action_views(r@) == removals(old(self)@.fragments),
    {
        rebalance(&mut self.fragments)
    }
}

impl Fragmentation for OneAryTreeFragmentation {
    open spec fn model(&self) -> FragmentationView {
        self@
    }

    /// Files a member with the first leaf whose interval holds its date, or
    /// with the first leaf of all where none does. Where the leaf's cache is
    /// full, all caches are written out first. Filing fails only where the
    /// capacity leaves no room for a single member; nothing changes then.
    fn insert(&mut self, member: &Member) -> (r: Result<Vec<FileAction>, FragmentationError>)
        ensures
            engine_wf(final(self)@),
            final(self).spec_tree_id() == old(self).spec_tree_id(),
            r is Ok <==> old(self)@.max_size_cache >= 2,
            match r {
                Ok(actions) => exists|pos: int|
                    {
                        &&& is_destination(old(self)@.fragments, member.date, pos)
                        &&& final(self)@ == (FragmentationView {
                            fragments: filed(old(self)@.fragments, pos, member@),
                            ..old(self)@
                        })
                        &&& action_views(actions@) == filing_actions(old(self)@.fragments, pos)
                    },
                Err(e) => e == FragmentationError::CacheFull && final(self)@ == old(self)@,
            },
            r is Ok ==> total_size(final(self)@.fragments) == total_size(old(self)@.fragments) + 1,
            final(self)@.fragments.len() == old(self)@.fragments.len(),
    {
        let ghost before = self@.fragments;
        let ghost old_view = self@;
        let pos = destination(&self.fragments, member.date);
        assert(before[pos as int].wf());
        let r = insert_at(&mut self.fragments, pos, member);
        proof {
            assert forall|i: int| 0 <= i < self@.fragments.len() implies (
            #[trigger] self@.fragments[i]).boundary.bounded() by {
                assert(before[i].boundary.bounded());
            }
            if r is Ok {
                assert(files_at(
                    old_view,
                    self@,
                    action_views(r->Ok_0@),
                    pos as int,
                    member@,
                ));
            }
        }
        r
    }

    /// Publishes the tree: the caches are written out, the leaves without
    /// members are dropped and their files deleted, and the root document and
    /// the summary are written for the leaves that stay.
    fn finalize(&mut self) -> (r: Vec<FileAction>)
        ensures
            engine_wf(final(self)@),
            final(self).spec_tree_id() == old(self).spec_tree_id(),
            final(self)@ == (FragmentationView {
                fragments: survivors(all_flushed(old(self)@.fragments)),
                ..old(self)@
            }),
            action_outlines(r@) == publication_outline(
                old(self)@.fragments,
                old(self)@.fragmentation_property,
                old(self)@.server_address,
            ),
    {
        let ghost before = self@.fragments;
        proof {
            lemma_publication_accounts(
                before,
                self@.fragmentation_property,
                self@.server_address,
            );
        }
        let mut actions = self.materialize();
        let ghost flushing = actions@;
        let mut removed = self.rebalance();
        let ghost removing = removed@;
        proof {
            lemma_all_flushed(before, self.max_size_cache);
            lemma_survivors(all_flushed(before), self.max_size_cache);
            lemma_bounded_writable(self@.fragments);
        }
        actions.append(&mut removed);
        let root = generate_central_root_node(
            &self.fragments,
            &self.fragmentation_property,
            &self.server_address,
        );
        let report = create_report(&self.fragments);
        actions.push(root);
        actions.push(report);
        proof {
            assert(actions@ =~= (flushing + removing) + seq![root, report]);
            lemma_views_concat(flushing + removing, seq![root, report]);
            lemma_views_concat(flushing, removing);
            assert(action_outlines(seq![root, report]) =~= publication(
                self@.fragments,
                self@.fragmentation_property,
                self@.server_address,
            ));
        }
        actions
    }

    fn fragments(&self) -> (r: &Vec<Fragment>) {
        &self.fragments
    }

    fn max_size_cache(&self) -> (r: usize) {
        self.max_size_cache
    }

    fn print_summary(&self) -> (r: Vec<String>) {
        summary(&self.fragments)
    }
}

} // verus!
