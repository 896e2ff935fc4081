//! The fragmentation strategies and what they share.

pub mod account;
pub mod action;
pub mod factory;
pub mod fragment;
pub mod linked_list_fragmentation;
pub mod order;
pub mod one_ary_tree_fragmentation;
pub mod report;
pub mod tree;

use self::action::{action_views, FileAction, FileActionView};
use self::fragment::{Boundary, Fragment, fragment_views, FragmentView};
use self::report::{entry_views, Report, ReportEntry, ReportEntryView};
use crate::member::{Member, MemberView};
use crate::text::{decimal, decimal_text};
use crate::time::{MAX_TIME, MIN_TIME};
use crate::tree::{Relation, relation_links, relation_views, RelationLink};
use vstd::prelude::*;
use vstd::string::*;

verus! {

/// Why a member could not be filed.
#[derive(Debug, Clone, Copy, PartialEq, Eq, Structural)]
pub enum FragmentationError {
    /// The cache of the destination has no room for a member, even when empty.
    CacheFull,
    /// No fragment accepts the date of the member.
    NoDestination,
}

/// What a fragmentation holds.
pub struct FragmentationView {
    /// The fragments, in the order of their creation.
    pub fragments: Seq<FragmentView>,
    /// The capacity of each fragment's cache.
    pub max_size_cache: usize,
    /// The address under which the documents will be served.
    pub server_address: Seq<char>,
    /// The property by whose date the members are filed.
    pub fragmentation_property: Seq<char>,
}

/// The name of the root document.
pub open spec fn root_name() -> Seq<char> {
    "0.ttl"@
}

/// The name of the summary.
pub open spec fn report_name() -> Seq<char> {
    "report.json"@
}

/// Every fragment keeps its cache within bounds and has the given capacity.
pub open spec fn fragments_wf(fragments: Seq<FragmentView>, max_size_cache: usize) -> bool {
    forall|i: int|
        0 <= i < fragments.len() ==> (#[trigger] fragments[i]).wf() && fragments[i].max_size_cache
            == max_size_cache
}

/// Every fragment has an interval whose closed ends are dates of the calendar.
pub open spec fn fragments_writable(fragments: Seq<FragmentView>) -> bool {
    forall|i: int| 0 <= i < fragments.len() ==> (#[trigger] fragments[i]).boundary.writable()
}

/// Every fragment has an ordered interval within the calendar.
pub open spec fn fragments_bounded(fragments: Seq<FragmentView>) -> bool {
    forall|i: int| 0 <= i < fragments.len() ==> (#[trigger] fragments[i]).boundary.bounded()
}

/// The number of members that the fragments accepted, all together.
pub open spec fn total_size(fragments: Seq<FragmentView>) -> nat
    decreases fragments.len(),
{
    if fragments.len() == 0 {
        0
    } else {
        total_size(fragments.drop_last()) + fragments.last().size as nat
    }
}

/// What every fragmentation keeps: the caches stay within the common
/// capacity, the intervals are ordered and within the calendar, and the
/// number of members can be counted.
pub open spec fn engine_wf(engine: FragmentationView) -> bool {
    &&& fragments_wf(engine.fragments, engine.max_size_cache)
    &&& fragments_bounded(engine.fragments)
    &&& total_size(engine.fragments) <= usize::MAX
}

/// Every cache is empty.
pub open spec fn all_written(fragments: Seq<FragmentView>) -> bool {
    forall|i: int| 0 <= i < fragments.len() ==> (#[trigger] fragments[i]).cache.len() == 0
}

/// The fragments once all caches are written out.
pub open spec fn all_flushed(fragments: Seq<FragmentView>) -> Seq<FragmentView> {
    fragments.map_values(|f: FragmentView| f.flushed())
}

/// The fragments with intervals that accept every date.
pub open spec fn all_widened(fragments: Seq<FragmentView>) -> Seq<FragmentView> {
    fragments.map_values(|f: FragmentView| f.widened())
}

/// The actions that write all caches out, fragment by fragment.
pub open spec fn flush_all_actions(fragments: Seq<FragmentView>) -> Seq<FileActionView>
    decreases fragments.len(),
{
    if fragments.len() == 0 {
        Seq::empty()
    } else {
        flush_all_actions(fragments.drop_last()) + fragments.last().flush_actions()
    }
}

/// The actions that create the files of the fragments, in their order.
pub open spec fn creations(fragments: Seq<FragmentView>) -> Seq<FileActionView> {
    fragments.map_values(|f: FragmentView| FileActionView::Create { filename: f.filename })
}

/// Some fragment accepts the date.
pub open spec fn has_destination(fragments: Seq<FragmentView>, date: i64) -> bool {
    exists|i: int| 0 <= i < fragments.len() && (#[trigger] fragments[i]).boundary.contains(date)
}

/// Every date of the calendar is accepted by some fragment.
pub open spec fn covers_calendar(fragments: Seq<FragmentView>) -> bool {
    forall|date: i64| MIN_TIME <= date <= MAX_TIME ==> #[trigger] has_destination(fragments, date)
}

/// `pos` is where a member of that date goes: the first fragment whose
/// interval holds the date, or the first fragment of all where none does.
pub open spec fn is_destination(fragments: Seq<FragmentView>, date: i64, pos: int) -> bool {
    if exists|i: int| 0 <= i < fragments.len() && (#[trigger] fragments[i]).boundary.contains(date) {
        &&& 0 <= pos < fragments.len()
        &&& fragments[pos].boundary.contains(date)
        &&& forall|j: int| 0 <= j < pos ==> !(#[trigger] fragments[j]).boundary.contains(date)
    } else {
        pos == 0
    }
}

/// The place where a member of that date goes in a row of leaves: the first
/// leaf whose interval holds the date, or the first leaf of all.
pub open spec fn destination_of(fragments: Seq<FragmentView>, date: i64) -> int {
    choose|pos: int| is_destination(fragments, date, pos)
}

/// The fragments after a member went to the one at `pos`: where its cache was
/// full, all caches were written out first.
pub open spec fn filed(fragments: Seq<FragmentView>, pos: int, member: MemberView) -> Seq<
    FragmentView,
> {
    if fragments[pos].is_full() {
        all_flushed(fragments).update(pos, fragments[pos].flushed().with_member(member))
    } else {
        fragments.update(pos, fragments[pos].with_member(member))
    }
}

/// The actions that filing a member at `pos` asks for: all caches are written
/// out where the cache at `pos` is full, and nothing happens otherwise.
pub open spec fn filing_actions(fragments: Seq<FragmentView>, pos: int) -> Seq<FileActionView> {
    if fragments[pos].is_full() {
        flush_all_actions(fragments)
    } else {
        Seq::empty()
    }
}

/// The leaves after the members went, one by one in their order, each to the
/// first leaf whose interval holds its date.
pub open spec fn filed_all(fragments: Seq<FragmentView>, members: Seq<MemberView>) -> Seq<
    FragmentView,
>
    decreases members.len(),
{
    if members.len() == 0 {
        fragments
    } else {
        let before = filed_all(fragments, members.drop_last());
        filed(before, destination_of(before, members.last().date), members.last())
    }
}

/// The actions that filing the members, one by one in their order, asks for.
pub open spec fn filing_all_actions(
    fragments: Seq<FragmentView>,
    members: Seq<MemberView>,
) -> Seq<FileActionView>
    decreases members.len(),
{
    if members.len() == 0 {
        Seq::empty()
    } else {
        let before = filed_all(fragments, members.drop_last());
        filing_all_actions(fragments, members.drop_last()) + filing_actions(
            before,
            destination_of(before, members.last().date),
        )
    }
}

/// The member went to the fragment at `pos`, whose interval holds the date of
/// the member if any interval does: nothing else changed, but that all caches
/// were written out where the cache at `pos` was full.
pub open spec fn files_at(
    before: FragmentationView,
    after: FragmentationView,
    actions: Seq<FileActionView>,
    pos: int,
    member: MemberView,
) -> bool {
    &&& 0 <= pos < before.fragments.len()
    &&& has_destination(before.fragments, member.date) ==> before.fragments[pos].boundary.contains(
        member.date,
    )
    &&& after == (FragmentationView {
        fragments: filed(before.fragments, pos, member),
        ..before
    })
    &&& actions == filing_actions(before.fragments, pos)
}

/// The fragments as they were laid out: with no members, and with the files,
/// intervals and capacities that they have.
pub open spec fn blanked(fragments: Seq<FragmentView>) -> Seq<FragmentView> {
    fragments.map_values(
        |f: FragmentView|
            FragmentView::fresh(f.filename, f.max_size_cache, f.boundary.lower, f.boundary.upper),
    )
}

/// The fragments that accepted at least one member, in their order.
pub open spec fn survivors(fragments: Seq<FragmentView>) -> Seq<FragmentView>
    decreases fragments.len(),
{
    if fragments.len() == 0 {
        Seq::empty()
    } else if fragments.last().size != 0 {
        survivors(fragments.drop_last()).push(fragments.last())
    } else {
        survivors(fragments.drop_last())
    }
}

/// The actions that delete the files of the fragments without members.
pub open spec fn removals(fragments: Seq<FragmentView>) -> Seq<FileActionView>
    decreases fragments.len(),
{
    if fragments.len() == 0 {
        Seq::empty()
    } else if fragments.last().size == 0 {
        removals(fragments.drop_last()).push(
            FileActionView::Remove { filename: fragments.last().filename },
        )
    } else {
        removals(fragments.drop_last())
    }
}

/// The intervals of the fragments that accepted at least one member.
pub open spec fn kept_intervals(fragments: Seq<FragmentView>) -> Seq<Boundary> {
    survivors(fragments).map_values(|f: FragmentView| f.boundary)
}

/// What the root document says: for each fragment in turn, the closed ends
/// of its interval.
pub open spec fn root_links(
    fragments: Seq<FragmentView>,
    fragmentation_property: Seq<char>,
    server_address: Seq<char>,
) -> Seq<RelationLink>
    decreases fragments.len(),
{
    if fragments.len() == 0 {
        Seq::empty()
    } else {
        root_links(fragments.drop_last(), fragmentation_property, server_address)
            + fragments.last().boundary.links(
            root_name(),
            fragments.last().filename,
            fragmentation_property,
            server_address,
        )
    }
}

/// The entry of the summary for one fragment.
pub open spec fn report_entry(fragment: FragmentView) -> ReportEntryView {
    ReportEntryView {
        filename: fragment.filename,
        report: Report::of(fragment.size, fragment.boundary),
    }
}

/// The summary: one entry per fragment, in the order of the fragments.
pub open spec fn report_entries(fragments: Seq<FragmentView>) -> Seq<ReportEntryView> {
    fragments.map_values(|f: FragmentView| report_entry(f))
}

/// The root document and the summary of the fragments, apart from the
/// identifiers of the relations.
pub open spec fn publication(
    fragments: Seq<FragmentView>,
    fragmentation_property: Seq<char>,
    server_address: Seq<char>,
) -> Seq<action::ActionOutline> {
    seq![
        action::ActionOutline::WriteRelations {
            filename: root_name(),
            relations: root_links(fragments, fragmentation_property, server_address),
        },
        action::ActionOutline::WriteReport {
            filename: report_name(),
            entries: report_entries(fragments),
        },
    ]
}

/// The line of the summary for one fragment.
pub open spec fn summary_line(fragment: FragmentView) -> Seq<char> {
    "the boundaries of "@ + fragment.filename + " are "@ + fragment.boundary.text()
        + " and it has "@ + decimal_text(fragment.size as nat) + " members"@
}

/// The last line of the summary: the number of members of all fragments.
pub open spec fn summary_total(fragments: Seq<FragmentView>) -> Seq<char> {
    "there is "@ + decimal_text(total_size(fragments)) + " members"@
}

/// The summary: one line per fragment, then the number of all members.
pub open spec fn summary_lines(fragments: Seq<FragmentView>) -> Seq<Seq<char>> {
    fragments.map_values(|f: FragmentView| summary_line(f)).push(summary_total(fragments))
}

/// What the three strategies share: members are filed one by one, and at the
/// end of the stream the fragmentation is published.
pub trait Fragmentation {
    /// What the fragmentation holds.
    spec fn model(&self) -> FragmentationView;

    /// Files a member with a fragment whose interval holds its date, or as
    /// the strategy says where none does. Where the cache of that fragment is
    /// full, all caches are written out first. Filing fails where the
    /// strategy finds no fragment for the date, and where the capacity leaves
    /// no room for a single member; nothing changes then.
    fn insert(&mut self, member: &Member) -> (r: Result<Vec<FileAction>, FragmentationError>)
        requires
            engine_wf(old(self).model()),
            old(self).model().fragments.len() > 0,
            total_size(old(self).model().fragments) < usize::MAX,
        ensures
            engine_wf(final(self).model()),
            match r {
                Ok(actions) => {
                    &&& old(self).model().max_size_cache >= 2
                    &&& exists|pos: int| #[trigger]
                        files_at(
                            old(self).model(),
                            final(self).model(),
                            action_views(actions@),
                            pos,
                            member@,
                        )
                    &&& total_size(final(self).model().fragments) == total_size(
                        old(self).model().fragments,
                    ) + 1
                },
                Err(FragmentationError::CacheFull) => {
                    &&& old(self).model().max_size_cache <= 1
                    &&& final(self).model() == old(self).model()
                },
                Err(FragmentationError::NoDestination) => {
                    &&& !has_destination(old(self).model().fragments, member.date)
                    &&& final(self).model() == old(self).model()
                },
            },
    ;

    /// Publishes the fragmentation: the caches are written out and the
    /// documents that describe the fragments are written. No member is lost:
    /// the sizes stay, and the members that waited in the caches are written.
    fn finalize(&mut self) -> (r: Vec<FileAction>)
        requires
            engine_wf(old(self).model()),
        ensures
            engine_wf(final(self).model()),
            all_written(final(self).model().fragments),
            total_size(final(self).model().fragments) == total_size(old(self).model().fragments),
            final(self).model().max_size_cache == old(self).model().max_size_cache,
            final(self).model().server_address == old(self).model().server_address,
            final(self).model().fragmentation_property == old(
                self,
            ).model().fragmentation_property,
            account::written(action::action_outlines(r@)) == account::cached(
                old(self).model().fragments,
            ),
    ;

    /// The capacity of each fragment's cache.
    fn max_size_cache(&self) -> (r: usize)
        ensures
            r == self.model().max_size_cache,
    ;

    /// The fragments, in the order of their creation.
    fn fragments(&self) -> (r: &Vec<Fragment>)
        ensures
            fragment_views(r@) == self.model().fragments,
    ;

    /// The summary for the reader: one line per fragment, then the number of
    /// all members.
    fn print_summary(&self) -> (r: Vec<String>)
        requires
            engine_wf(self.model()),
        ensures
            crate::member::text_views(r@) == summary_lines(self.model().fragments),
    ;
}

/// Writes all caches out: each fragment with members in its cache yields the
/// action that appends them to its file, and every cache is left empty.
pub fn flush_all(fragments: &mut Vec<Fragment>) -> (r: Vec<FileAction>)
    ensures
        fragment_views(final(fragments)@) == all_flushed(fragment_views(old(fragments)@)),
        action_views(r@) == flush_all_actions(fragment_views(old(fragments)@)),
{
    let ghost before = fragment_views(fragments@);
    let mut actions: Vec<FileAction> = Vec::new();
    let n = fragments.len();
    let mut i: usize = 0;
    assert(action_views(actions@) =~= flush_all_actions(before.take(0)));
    while i < n
        invariant
            i <= n,
            n == fragments.len(),
            before.len() == n,
            forall|k: int| 0 <= k < i ==> (#[trigger] fragments@[k])@ == before[k].flushed(),
            forall|k: int| i <= k < n ==> (#[trigger] fragments@[k])@ == before[k],
            action_views(actions@) == flush_all_actions(before.take(i as int)),
        decreases n - i,
    {
        let ghost done = action_views(actions@);
        let flushed = fragments[i].materialize();
        match flushed {
            Some(action) => {
                actions.push(action);
            },
            None => {},
        }
        proof {
            assert(before.take(i + 1).drop_last() =~= before.take(i as int));
            assert(before.take(i + 1).last() == before[i as int]);
            assert(action_views(actions@) =~= done + before[i as int].flush_actions());
        }
        i += 1;
    }
    assert(before.take(n as int) =~= before);
    assert(fragment_views(fragments@) =~= all_flushed(before));
    actions
}

/// Widens the interval of every fragment so that it accepts every date.
pub fn widen_all(fragments: &mut Vec<Fragment>)
    ensures
        fragment_views(final(fragments)@) == all_widened(fragment_views(old(fragments)@)),
{
    let ghost before = fragment_views(fragments@);
    let n = fragments.len();
    let mut i: usize = 0;
    while i < n
        invariant
            i <= n,
            n == fragments.len(),
            before.len() == n,
            forall|k: int| 0 <= k < i ==> (#[trigger] fragments@[k])@ == before[k].widened(),
            forall|k: int| i <= k < n ==> (#[trigger] fragments@[k])@ == before[k],
        decreases n - i,
    {
        fragments[i].up_boundary_infinity();
        i += 1;
    }
    assert(fragment_views(fragments@) =~= all_widened(before));
}

/// Finds where a member of that date goes: the first fragment whose interval
/// holds the date, or the first fragment of all where none does.
pub fn destination(fragments: &Vec<Fragment>, date: i64) -> (pos: usize)
    ensures
        is_destination(fragment_views(fragments@), date, pos as int),
{
    let mut i: usize = 0;
    while i < fragments.len()
        invariant
            i <= fragments.len(),
            forall|j: int|
                0 <= j < i ==> !(#[trigger] fragment_views(fragments@)[j]).boundary.contains(date),
        decreases fragments.len() - i,
    {
        if fragments[i].boundary().is_in_between(date) {
            assert(fragment_views(fragments@)[i as int].boundary.contains(date));
            return i;
        }
        i += 1;
    }
    0
}

/// Files a member with the fragment at `pos`. Where the cache of that
/// fragment is full, all caches are written out and the fragment is tried
/// once more; that fails only where the capacity leaves no room at all, and
/// then nothing has changed.
pub fn insert_at(fragments: &mut Vec<Fragment>, pos: usize, member: &Member) -> (r: Result<
    Vec<FileAction>,
    FragmentationError,
>)
    requires
        pos < old(fragments).len(),
        fragments_wf(
            fragment_views(old(fragments)@),
            fragment_views(old(fragments)@)[pos as int].max_size_cache,
        ),
        total_size(fragment_views(old(fragments)@)) < usize::MAX,
    ensures
        fragments_wf(
            fragment_views(final(fragments)@),
            fragment_views(old(fragments)@)[pos as int].max_size_cache,
        ),
        match r {
            Ok(actions) => {
                &&& fragment_views(old(fragments)@)[pos as int].max_size_cache >= 2
                &&& fragment_views(final(fragments)@) == filed(
                    fragment_views(old(fragments)@),
                    pos as int,
                    member@,
                )
                &&& action_views(actions@) == filing_actions(
                    fragment_views(old(fragments)@),
                    pos as int,
                )
                &&& total_size(fragment_views(final(fragments)@)) == total_size(
                    fragment_views(old(fragments)@),
                ) + 1
            },
            Err(e) => {
                &&& e == FragmentationError::CacheFull
                &&& fragment_views(old(fragments)@)[pos as int].max_size_cache <= 1
                &&& fragment_views(final(fragments)@) == fragment_views(old(fragments)@)
            },
        },
{
    let ghost before = fragment_views(fragments@);
    let ghost capacity = before[pos as int].max_size_cache;
    proof {
        lemma_size_le_total(before, pos as int);
        assert(before[pos as int].wf());
    }
    let first = fragments[pos].insert(member);
    match first {
        Ok(_) => {
            proof {
                assert(fragment_views(fragments@) =~= before.update(
                    pos as int,
                    before[pos as int].with_member(member@),
                ));
                lemma_total_update(before, pos as int, before[pos as int].with_member(member@));
                assert forall|i: int| 0 <= i < before.len() implies (#[trigger] fragment_views(
                    fragments@,
                )[i]).wf() && fragment_views(fragments@)[i].max_size_cache == capacity by {
                    assert(before[i].wf());
                }
            }
            Ok(Vec::new())
        },
        Err(_) => {
            assert(fragment_views(fragments@) =~= before);
            let actions = flush_all(fragments);
            let ghost flushed = fragment_views(fragments@);
            proof {
                lemma_total_flushed(before);
                lemma_size_le_total(flushed, pos as int);
                assert(flushed[pos as int] == before[pos as int].flushed());
            }
            let second = fragments[pos].insert(member);
            match second {
                Ok(_) => {
                    proof {
                        assert(fragment_views(fragments@) =~= flushed.update(
                            pos as int,
                            flushed[pos as int].with_member(member@),
                        ));
                        lemma_total_update(
                            flushed,
                            pos as int,
                            flushed[pos as int].with_member(member@),
                        );
                        assert forall|i: int| 0 <= i < before.len() implies (
                        #[trigger] fragment_views(fragments@)[i]).wf() && fragment_views(
                            fragments@,
                        )[i].max_size_cache == capacity by {
                            assert(before[i].wf());
                            assert(flushed[i] == before[i].flushed());
                        }
                    }
                    Ok(actions)
                },
                Err(_) => {
                    proof {
                        assert(fragment_views(fragments@) =~= flushed);
                        assert forall|i: int| 0 <= i < before.len() implies (
                        #[trigger] before[i]).cache.len() == 0 by {
                            assert(before[i].wf());
                        }
                        lemma_nothing_to_flush(before);
                    }
                    Err(FragmentationError::CacheFull)
                },
            }
        },
    }
}

/// Drops every fragment that accepted no member, and returns the actions
/// that delete their files. The other fragments stay as they are, in their
/// order.
pub fn rebalance(fragments: &mut Vec<Fragment>) -> (r: Vec<FileAction>)
    ensures
        fragment_views(final(fragments)@) == survivors(fragment_views(old(fragments)@)),
        action_views(r@) == removals(fragment_views(old(fragments)@)),
{
    let ghost before = fragment_views(fragments@);
    let mut kept: Vec<Fragment> = Vec::new();
    let mut actions: Vec<FileAction> = Vec::new();
    let mut i: usize = 0;
    assert(fragment_views(kept@) =~= survivors(before.take(0)));
    assert(action_views(actions@) =~= removals(before.take(0)));
    while i < fragments.len()
        invariant
            i <= fragments.len(),
            before == fragment_views(fragments@),
            fragment_views(kept@) == survivors(before.take(i as int)),
            action_views(actions@) == removals(before.take(i as int)),
        decreases fragments.len() - i,
    {
        let ghost kept_before = fragment_views(kept@);
        let ghost actions_before = action_views(actions@);
        let fragment = &fragments[i];
        if fragment.size() == 0 {
            actions.push(fragment.clear_file());
        } else {
            kept.push(fragment.clone());
        }
        proof {
            assert(before.take(i + 1).drop_last() =~= before.take(i as int));
            assert(before.take(i + 1).last() == before[i as int]);
            if before[i as int].size == 0 {
                assert(action_views(actions@) =~= actions_before.push(
                    FileActionView::Remove { filename: before[i as int].filename },
                ));
                assert(fragment_views(kept@) =~= kept_before);
            } else {
                assert(fragment_views(kept@) =~= kept_before.push(before[i as int]));
                assert(action_views(actions@) =~= actions_before);
            }
        }
        i += 1;
    }
    assert(before.take(i as int) =~= before);
    *fragments = kept;
    actions
}

/// The intervals of the fragments that accepted at least one member, in the
/// order of the fragments.
pub fn kept_boundaries(fragments: &Vec<Fragment>) -> (r: Vec<Boundary>)
    ensures
        r@ == kept_intervals(fragment_views(fragments@)),
{
    let ghost views = fragment_views(fragments@);
    let mut kept: Vec<Boundary> = Vec::new();
    let mut i: usize = 0;
    assert(kept@ =~= kept_intervals(views.take(0)));
    while i < fragments.len()
        invariant
            i <= fragments.len(),
            views == fragment_views(fragments@),
            kept@ == kept_intervals(views.take(i as int)),
        decreases fragments.len() - i,
    {
        let ghost kept_before = kept@;
        if fragments[i].size() != 0 {
            kept.push(*fragments[i].boundary());
        }
        proof {
            assert(views.take(i + 1).drop_last() =~= views.take(i as int));
            assert(views.take(i + 1).last() == views[i as int]);
            if views[i as int].size != 0 {
                assert(kept@ =~= kept_intervals(views.take(i + 1)));
            } else {
                assert(kept@ =~= kept_intervals(views.take(i + 1)));
            }
        }
        i += 1;
    }
    assert(views.take(i as int) =~= views);
    kept
}

/// The action that writes the root document: for each fragment in turn, the
/// relations from the root to the fragment that state the closed ends of its
/// interval.
pub fn generate_central_root_node(
    fragments: &Vec<Fragment>,
    fragmentation_property: &String,
    server_address: &String,
) -> (r: FileAction)
    requires
        fragments_writable(fragment_views(fragments@)),
    ensures
        r@.outline() == (action::ActionOutline::WriteRelations {
            filename: root_name(),
            relations: root_links(
                fragment_views(fragments@),
                fragmentation_property@,
                server_address@,
            ),
        }),
{
    let ghost views = fragment_views(fragments@);
    let root = String::from_str("0.ttl");
    let mut relations: Vec<Relation> = Vec::with_capacity(fragments.len());
    let mut i: usize = 0;
    assert(relation_links(relations@) =~= root_links(
        views.take(0),
        fragmentation_property@,
        server_address@,
    ));
    while i < fragments.len()
        invariant
            i <= fragments.len(),
            views == fragment_views(fragments@),
            fragments_writable(views),
            root@ == root_name(),
            relation_links(relations@) == root_links(
                views.take(i as int),
                fragmentation_property@,
                server_address@,
            ),
        decreases fragments.len() - i,
    {
        let ghost done = relations@;
        let fragment = &fragments[i];
        assert(views[i as int].boundary.writable());
        let mut next = fragment.boundary().to_relation(
            &root,
            fragment.filename(),
            fragmentation_property,
            server_address,
        );
        let ghost added = next@;
        relations.append(&mut next);
        proof {
            assert(views.take(i + 1).drop_last() =~= views.take(i as int));
            assert(views.take(i + 1).last() == views[i as int]);
            assert(relation_links(done + added) =~= relation_links(done) + relation_links(added));
        }
        i += 1;
    }
    assert(views.take(i as int) =~= views);
    let action = FileAction::WriteRelations { filename: root, relations };
    assert(action::links_of(relation_views(relations@)) =~= relation_links(relations@));
    action
}

/// The action that writes the summary: for each fragment the number of its
/// members, nothing for none, and its interval, under the name of its file.
pub fn create_report(fragments: &Vec<Fragment>) -> (r: FileAction)
    ensures
        r@ == (FileActionView::WriteReport {
            filename: report_name(),
            entries: report_entries(fragment_views(fragments@)),
        }),
{
    let mut entries: Vec<ReportEntry> = Vec::with_capacity(fragments.len());
    let mut i: usize = 0;
    while i < fragments.len()
        invariant
            i <= fragments.len(),
            entries.len() == i,
            forall|k: int|
                0 <= k < i ==> (#[trigger] entries@[k])@ == report_entry(
                    fragment_views(fragments@)[k],
                ),
        decreases fragments.len() - i,
    {
        let fragment = &fragments[i];
        let report = Report {
            n_member: if fragment.size() == 0 {
                None
            } else {
                Some(fragment.size())
            },
            boundary: *fragment.boundary(),
        };
        entries.push(ReportEntry { filename: fragment.filename().clone(), report });
        i += 1;
    }
    assert(entry_views(entries@) =~= report_entries(fragment_views(fragments@)));
    FileAction::WriteReport { filename: String::from_str("report.json"), entries }
}

/// Writes the summary of the fragments: one line per fragment, then the
/// number of all members.
pub fn summary(fragments: &Vec<Fragment>) -> (r: Vec<String>)
    requires
        total_size(fragment_views(fragments@)) <= usize::MAX,
    ensures
        crate::member::text_views(r@) == summary_lines(fragment_views(fragments@)),
{
    let ghost views = fragment_views(fragments@);
    let mut lines: Vec<String> = Vec::new();
    let mut n_members: usize = 0;
    let mut i: usize = 0;
    while i < fragments.len()
        invariant
            i <= fragments.len(),
            views == fragment_views(fragments@),
            total_size(views) <= usize::MAX,
            n_members == total_size(views.take(i as int)),
            lines.len() == i,
            forall|k: int| 0 <= k < i ==> (#[trigger] lines@[k])@ == summary_line(views[k]),
        decreases fragments.len() - i,
    {
        proof {
            lemma_total_prefix(views, i as int);
        }
        let fragment = &fragments[i];
        let mut line = String::from_str("the boundaries of ");
        line.append(fragment.to_string().as_str());
        line.append(" are ");
        line.append(fragment.boundary().to_string().as_str());
        line.append(" and it has ");
        line.append(decimal(fragment.len()).as_str());
        line.append(" members");
        assert(line@ =~= summary_line(views[i as int]));
        lines.push(line);
        n_members = n_members + fragment.size();
        i += 1;
    }
    assert(views.take(i as int) =~= views);
    let mut last = String::from_str("there is ");
    last.append(decimal(n_members).as_str());
    last.append(" members");
    assert(last@ =~= summary_total(views));
    lines.push(last);
    assert(crate::member::text_views(lines@) =~= summary_lines(views));
    lines
}

/// Filing one member raises the number of members by one: the fragment that
/// takes the member grows by one, every other fragment keeps its size, and
/// the number of fragments stays.
pub proof fn lemma_filed_grows_one(fragments: Seq<FragmentView>, pos: int, member: MemberView)
    requires
        0 <= pos < fragments.len(),
        total_size(fragments) < usize::MAX,
    ensures
        filed(fragments, pos, member).len() == fragments.len(),
        filed(fragments, pos, member)[pos].size == fragments[pos].size + 1,
        forall|i: int|
            0 <= i < fragments.len() && i != pos ==> (#[trigger] filed(
                fragments,
                pos,
                member,
            )[i]).size == fragments[i].size,
        total_size(filed(fragments, pos, member)) == total_size(fragments) + 1,
{
    lemma_size_le_total(fragments, pos);
    lemma_total_flushed(fragments);
    if fragments[pos].is_full() {
        lemma_total_update(
            all_flushed(fragments),
            pos,
            fragments[pos].flushed().with_member(member),
        );
    } else {
        lemma_total_update(fragments, pos, fragments[pos].with_member(member));
    }
}

/// In a fragmentation, no cache exceeds the common capacity, nor the number
/// of members that its fragment accepted.
pub proof fn lemma_caches_bounded(fragmentation: FragmentationView, i: int)
    requires
        engine_wf(fragmentation),
        0 <= i < fragmentation.fragments.len(),
    ensures
        fragmentation.fragments[i].cache.len() <= fragmentation.max_size_cache,
        fragmentation.fragments[i].cache.len() <= fragmentation.fragments[i].size,
{
    assert(fragmentation.fragments[i].wf());
}

/// Fragments that begin with a row that covers the calendar cover it too.
pub proof fn lemma_prefix_covers(fragments: Seq<FragmentView>, n: int)
    requires
        0 <= n <= fragments.len(),
        covers_calendar(fragments.take(n)),
    ensures
        covers_calendar(fragments),
{
    let row = fragments.take(n);
    assert forall|date: i64| MIN_TIME <= date <= MAX_TIME implies #[trigger] has_destination(
        fragments,
        date,
    ) by {
        assert(has_destination(row, date));
        let i = choose|i: int| 0 <= i < row.len() && (#[trigger] row[i]).boundary.contains(date);
        assert(fragments[i].boundary.contains(date));
    }
}

/// No member is lost: after the members were filed, the leaves hold as many
/// members more as were filed, as long as the members can be counted.
pub proof fn lemma_no_member_lost(fragments: Seq<FragmentView>, members: Seq<MemberView>)
    requires
        fragments.len() > 0,
        total_size(fragments) + members.len() <= usize::MAX,
    ensures
        filed_all(fragments, members).len() == fragments.len(),
        total_size(filed_all(fragments, members)) == total_size(fragments) + members.len(),
        total_size(survivors(all_flushed(filed_all(fragments, members)))) == total_size(fragments)
            + members.len(),
    decreases members.len(),
{
    if members.len() > 0 {
        let before = filed_all(fragments, members.drop_last());
        lemma_no_member_lost(fragments, members.drop_last());
        let date = members.last().date;
        lemma_destination_exists(before, date);
        let pos = destination_of(before, date);
        lemma_size_le_total(before, pos);
        lemma_total_flushed(before);
        lemma_size_le_total(all_flushed(before), pos);
        if before[pos].is_full() {
            lemma_total_update(
                all_flushed(before),
                pos,
                before[pos].flushed().with_member(members.last()),
            );
        } else {
            lemma_total_update(before, pos, before[pos].with_member(members.last()));
        }
    }
    lemma_total_flushed(filed_all(fragments, members));
    lemma_survivors(all_flushed(filed_all(fragments, members)), 0);
}

/// The summary of the fragments that stay after the empty ones are dropped
/// gives each of them its number of members, and never nothing.
pub proof fn lemma_report_of_survivors(fragments: Seq<FragmentView>, i: int)
    requires
        0 <= i < survivors(fragments).len(),
    ensures
        report_entries(survivors(fragments))[i].filename == survivors(fragments)[i].filename,
        report_entries(survivors(fragments))[i].report.n_member == Some(
            survivors(fragments)[i].size,
        ),
{
    lemma_survivors(fragments, 0);
}

/// There is one place where a member of a date goes, and no other.
pub proof fn lemma_destination_unique(fragments: Seq<FragmentView>, date: i64, pos: int)
    requires
        is_destination(fragments, date, pos),
    ensures
        destination_of(fragments, date) == pos,
{
    let other = destination_of(fragments, date);
    assert(is_destination(fragments, date, other));
    if has_destination(fragments, date) {
        if other < pos {
            assert(!fragments[other].boundary.contains(date));
        } else if pos < other {
            assert(!fragments[pos].boundary.contains(date));
        }
    }
}

/// A row with leaves has a place for a member of any date.
pub proof fn lemma_destination_exists(fragments: Seq<FragmentView>, date: i64)
    requires
        fragments.len() > 0,
    ensures
        is_destination(fragments, date, destination_of(fragments, date)),
        0 <= destination_of(fragments, date) < fragments.len(),
{
    if has_destination(fragments, date) {
        let i = choose|i: int|
            0 <= i < fragments.len() && (#[trigger] fragments[i]).boundary.contains(date);
        lemma_first_holder(fragments, date, i);
    } else {
        assert(is_destination(fragments, date, 0));
    }
}

/// Where the leaf at `i` holds the date, some leaf at or before `i` is the
/// first to hold it.
pub proof fn lemma_first_holder(fragments: Seq<FragmentView>, date: i64, i: int)
    requires
        0 <= i < fragments.len(),
        fragments[i].boundary.contains(date),
    ensures
        exists|pos: int| is_destination(fragments, date, pos),
    decreases i,
{
    if exists|j: int| 0 <= j < i && (#[trigger] fragments[j]).boundary.contains(date) {
        let j = choose|j: int| 0 <= j < i && (#[trigger] fragments[j]).boundary.contains(date);
        lemma_first_holder(fragments, date, j);
    } else {
        assert(is_destination(fragments, date, i));
    }
}

/// No fragment accepted more members than all of them together.
pub proof fn lemma_size_le_total(fragments: Seq<FragmentView>, i: int)
    requires
        0 <= i < fragments.len(),
    ensures
        fragments[i].size <= total_size(fragments),
    decreases fragments.len(),
{
    if i < fragments.len() - 1 {
        lemma_size_le_total(fragments.drop_last(), i);
    }
}

/// Replacing one fragment changes the total by the difference of the sizes.
pub proof fn lemma_total_update(fragments: Seq<FragmentView>, i: int, fragment: FragmentView)
    requires
        0 <= i < fragments.len(),
    ensures
        total_size(fragments.update(i, fragment)) == total_size(fragments) - fragments[i].size
            + fragment.size,
    decreases fragments.len(),
{
    let updated = fragments.update(i, fragment);
    if i < fragments.len() - 1 {
        lemma_total_update(fragments.drop_last(), i, fragment);
        assert(updated.drop_last() =~= fragments.drop_last().update(i, fragment));
    } else {
        assert(updated.drop_last() =~= fragments.drop_last());
    }
}

/// Writing the caches out changes no size.
pub proof fn lemma_total_flushed(fragments: Seq<FragmentView>)
    ensures
        total_size(all_flushed(fragments)) == total_size(fragments),
    decreases fragments.len(),
{
    if fragments.len() > 0 {
        lemma_total_flushed(fragments.drop_last());
        assert(all_flushed(fragments).drop_last() =~= all_flushed(fragments.drop_last()));
    }
}

/// The total of a prefix grows with the prefix and stays below the total.
pub proof fn lemma_total_prefix(fragments: Seq<FragmentView>, i: int)
    requires
        0 <= i < fragments.len(),
    ensures
        total_size(fragments.take(i + 1)) == total_size(fragments.take(i)) + fragments[i].size,
        total_size(fragments.take(i + 1)) <= total_size(fragments),
    decreases fragments.len() - i,
{
    assert(fragments.take(i + 1).drop_last() =~= fragments.take(i));
    if i + 1 < fragments.len() {
        lemma_total_prefix(fragments, i + 1);
    } else {
        assert(fragments.take(i + 1) =~= fragments);
    }
}

/// Fragments without members have no members together.
pub proof fn lemma_total_of_empty(fragments: Seq<FragmentView>)
    requires
        forall|i: int| 0 <= i < fragments.len() ==> (#[trigger] fragments[i]).size == 0,
    ensures
        total_size(fragments) == 0,
    decreases fragments.len(),
{
    if fragments.len() > 0 {
        lemma_total_of_empty(fragments.drop_last());
        assert(fragments[fragments.len() - 1].size == 0);
    }
}

/// Where every cache is empty, writing the caches out asks for no action and
/// changes nothing.
pub proof fn lemma_nothing_to_flush(fragments: Seq<FragmentView>)
    requires
        forall|i: int| 0 <= i < fragments.len() ==> (#[trigger] fragments[i]).cache.len() == 0,
    ensures
        flush_all_actions(fragments) == Seq::<FileActionView>::empty(),
        all_flushed(fragments) == fragments,
    decreases fragments.len(),
{
    if fragments.len() > 0 {
        lemma_nothing_to_flush(fragments.drop_last());
        assert(fragments.last().cache.len() == 0);
    }
    assert forall|i: int| 0 <= i < fragments.len() implies all_flushed(fragments)[i]
        == fragments[i] by {
        assert(fragments[i].cache =~= Seq::empty());
    }
    assert(all_flushed(fragments) =~= fragments);
}

/// What writing all caches out keeps: the capacities, the intervals and the
/// sizes; and afterwards every cache is empty.
pub proof fn lemma_all_flushed(fragments: Seq<FragmentView>, max_size_cache: usize)
    ensures
        all_written(all_flushed(fragments)),
        total_size(all_flushed(fragments)) == total_size(fragments),
        fragments_wf(fragments, max_size_cache) ==> fragments_wf(
            all_flushed(fragments),
            max_size_cache,
        ),
        fragments_bounded(fragments) ==> fragments_bounded(all_flushed(fragments)),
{
    lemma_total_flushed(fragments);
    if fragments_wf(fragments, max_size_cache) {
        assert forall|i: int| 0 <= i < fragments.len() implies (#[trigger] all_flushed(
            fragments,
        )[i]).wf() && all_flushed(fragments)[i].max_size_cache == max_size_cache by {
            assert(fragments[i].wf());
        }
    }
    if fragments_bounded(fragments) {
        assert forall|i: int| 0 <= i < fragments.len() implies (#[trigger] all_flushed(
            fragments,
        )[i]).boundary.bounded() by {
            assert(fragments[i].boundary.bounded());
        }
    }
}

/// What widening every interval keeps: the caches, the files and the sizes.
/// Afterwards every interval lies within the calendar.
pub proof fn lemma_all_widened(fragments: Seq<FragmentView>, max_size_cache: usize)
    ensures
        fragments_bounded(all_widened(fragments)),
        total_size(all_widened(fragments)) == total_size(fragments),
        flush_all_actions(all_widened(fragments)) == flush_all_actions(fragments),
        removals(all_flushed(all_widened(fragments))) == removals(all_flushed(fragments)),
        survivors(all_flushed(all_widened(fragments))) == all_flushed(
            all_widened(survivors(fragments)),
        ),
        fragments_wf(fragments, max_size_cache) ==> fragments_wf(
            all_widened(fragments),
            max_size_cache,
        ),
    decreases fragments.len(),
{
    if fragments.len() > 0 {
        let rest = fragments.drop_last();
        lemma_all_widened(rest, max_size_cache);
        assert(all_widened(fragments).drop_last() =~= all_widened(rest));
        assert(all_flushed(all_widened(fragments)).drop_last() =~= all_flushed(
            all_widened(rest),
        ));
        assert(all_flushed(fragments).drop_last() =~= all_flushed(rest));
        if fragments.last().size != 0 {
            assert(survivors(fragments).drop_last() =~= survivors(rest));
            assert(all_flushed(all_widened(survivors(fragments))) =~= all_flushed(
                all_widened(survivors(rest)),
            ).push(fragments.last().widened().flushed()));
        }
        if fragments_wf(fragments, max_size_cache) {
            assert forall|i: int| 0 <= i < fragments.len() implies (#[trigger] all_widened(
                fragments,
            )[i]).wf() && all_widened(fragments)[i].max_size_cache == max_size_cache by {
                assert(fragments[i].wf());
            }
        }
    } else {
        assert(all_flushed(all_widened(survivors(fragments))) =~= Seq::<FragmentView>::empty());
    }
}

/// What dropping the fragments without members keeps: the capacities, the
/// intervals, the empty caches and the number of members. Every fragment that
/// stays has members.
pub proof fn lemma_survivors(fragments: Seq<FragmentView>, max_size_cache: usize)
    ensures
        survivors(fragments).len() <= fragments.len(),
        total_size(survivors(fragments)) == total_size(fragments),
        forall|i: int|
            0 <= i < survivors(fragments).len() ==> (#[trigger] survivors(fragments)[i]).size != 0,
        fragments_wf(fragments, max_size_cache) ==> fragments_wf(
            survivors(fragments),
            max_size_cache,
        ),
        fragments_bounded(fragments) ==> fragments_bounded(survivors(fragments)),
        all_written(fragments) ==> all_written(survivors(fragments)),
    decreases fragments.len(),
{
    if fragments.len() > 0 {
        let rest = fragments.drop_last();
        lemma_survivors(rest, max_size_cache);
        let kept = survivors(fragments);
        if fragments.last().size != 0 {
            assert(kept.drop_last() =~= survivors(rest));
        }
        if fragments_wf(fragments, max_size_cache) {
            assert forall|i: int| 0 <= i < rest.len() implies (#[trigger] rest[i]).wf()
                && rest[i].max_size_cache == max_size_cache by {
                assert(fragments[i].wf());
            }
            assert(fragments[fragments.len() - 1].wf());
        }
        if fragments_bounded(fragments) {
            assert forall|i: int| 0 <= i < rest.len() implies (
            #[trigger] rest[i]).boundary.bounded() by {
                assert(fragments[i].boundary.bounded());
            }
            assert(fragments[fragments.len() - 1].boundary.bounded());
        }
        if all_written(fragments) {
            assert forall|i: int| 0 <= i < rest.len() implies (#[trigger] rest[i]).cache.len()
                == 0 by {
                assert(fragments[i].cache.len() == 0);
            }
            assert(fragments[fragments.len() - 1].cache.len() == 0);
        }
    }
}

/// Intervals within the calendar can be written into relations.
pub proof fn lemma_bounded_writable(fragments: Seq<FragmentView>)
    requires
        fragments_bounded(fragments),
    ensures
        fragments_writable(fragments),
{
    assert forall|i: int| 0 <= i < fragments.len() implies (
    #[trigger] fragments[i]).boundary.writable() by {
        assert(fragments[i].boundary.bounded());
    }
}

/// Filing a member and writing caches out change nothing of the layout.
pub proof fn lemma_layout_kept(fragments: Seq<FragmentView>, pos: int, member: MemberView)
    requires
        0 <= pos < fragments.len(),
    ensures
        blanked(filed(fragments, pos, member)) == blanked(fragments),
        blanked(all_flushed(fragments)) == blanked(fragments),
{
    assert(blanked(filed(fragments, pos, member)) =~= blanked(fragments));
    assert(blanked(all_flushed(fragments)) =~= blanked(fragments));
}

/// Writing caches out changes nothing of the layout.
pub proof fn lemma_layout_flushed(fragments: Seq<FragmentView>)
    ensures
        blanked(all_flushed(fragments)) == blanked(fragments),
{
    assert(blanked(all_flushed(fragments)) =~= blanked(fragments));
}

/// Fragments of the same layout accept the same dates.
pub proof fn lemma_layout_destinations(
    first: Seq<FragmentView>,
    second: Seq<FragmentView>,
    date: i64,
)
    requires
        blanked(first) == blanked(second),
        has_destination(first, date),
    ensures
        has_destination(second, date),
{
    let i = choose|i: int| 0 <= i < first.len() && (#[trigger] first[i]).boundary.contains(date);
    assert(blanked(first).len() == first.len());
    assert(blanked(second).len() == second.len());
    assert(blanked(first)[i] == blanked(second)[i]);
    assert(blanked(first)[i].boundary == first[i].boundary);
    assert(blanked(second)[i].boundary == second[i].boundary);
    assert(second[i].boundary.contains(date));
}

/// The root document and the summary write no member.
pub proof fn lemma_publication_writes_nothing(
    fragments: Seq<FragmentView>,
    fragmentation_property: Seq<char>,
    server_address: Seq<char>,
)
    ensures
        account::writes_no_member(publication(fragments, fragmentation_property, server_address)),
        account::writes_no_member(action::outlines_of(creations(fragments))),
{
}

} // verus!
