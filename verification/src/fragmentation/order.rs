//! The order of the members in the file of a leaf: the order of their
//! arrival.

use super::account::{lemma_nothing_concat, lemma_removals_write_nothing, writes_no_member};
use super::action::{ActionOutline, lemma_outlines_concat, outlines_of};
use super::fragment::FragmentView;
use super::one_ary_tree_fragmentation::{
    construction_outline, first_row, leaf_name, publication_outline,
};
use super::{
    all_flushed, blanked, creations, destination_of, filed, filed_all, filing_actions,
    filing_all_actions, flush_all_actions, is_destination, lemma_destination_exists,
    lemma_destination_unique, lemma_layout_kept, lemma_publication_writes_nothing, publication,
    removals, survivors,
};
use crate::member::MemberView;
use crate::text::{decimal_text, lemma_decimal_injective};
use vstd::prelude::*;

verus! {

/// The members that one action appends to the file of that name.
pub open spec fn appends(outline: ActionOutline, filename: Seq<char>) -> Seq<MemberView> {
    match outline {
        ActionOutline::AppendMembers { filename: target, members } => if target == filename {
            members
        } else {
            Seq::empty()
        },
        _ => Seq::empty(),
    }
}

/// The members that the actions append to the file of that name, in the
/// order in which the actions append them.
pub open spec fn appended_to(outlines: Seq<ActionOutline>, filename: Seq<char>) -> Seq<MemberView>
    decreases outlines.len(),
{
    if outlines.len() == 0 {
        Seq::empty()
    } else {
        appended_to(outlines.drop_last(), filename) + appends(outlines.last(), filename)
    }
}

/// No two fragments share a file.
pub open spec fn names_distinct(fragments: Seq<FragmentView>) -> bool {
    forall|i: int, j: int|
        0 <= i < j < fragments.len() ==> (#[trigger] fragments[i]).filename != (
        #[trigger] fragments[j]).filename
}

/// The members that go to the leaf at `place`, in the order of their
/// arrival: those for which the leaf is the first to hold their date, or,
/// for the first leaf, for which no leaf does.
pub open spec fn routed_to(fragments: Seq<FragmentView>, members: Seq<MemberView>, place: int) -> Seq<
    MemberView,
>
    decreases members.len(),
{
    if members.len() == 0 {
        Seq::empty()
    } else if destination_of(fragments, members.last().date) == place {
        routed_to(fragments, members.drop_last(), place).push(members.last())
    } else {
        routed_to(fragments, members.drop_last(), place)
    }
}

/// What two runs of actions append to a file is what the first appends,
/// followed by what the second appends.
pub proof fn lemma_appended_concat(
    first: Seq<ActionOutline>,
    second: Seq<ActionOutline>,
    filename: Seq<char>,
)
    ensures
        appended_to(first + second, filename) == appended_to(first, filename) + appended_to(
            second,
            filename,
        ),
    decreases second.len(),
{
    if second.len() == 0 {
        assert(first + second =~= first);
        assert(appended_to(first + second, filename) =~= appended_to(first, filename)
            + appended_to(second, filename));
    } else {
        lemma_appended_concat(first, second.drop_last(), filename);
        assert((first + second).drop_last() =~= first + second.drop_last());
        assert((first + second).last() == second.last());
        assert(appended_to(first + second, filename) =~= appended_to(first, filename)
            + appended_to(second, filename));
    }
}

/// Writing all caches out appends nothing to a file that no fragment has.
pub proof fn lemma_flush_spares(fragments: Seq<FragmentView>, filename: Seq<char>)
    requires
        forall|j: int| 0 <= j < fragments.len() ==> (#[trigger] fragments[j]).filename != filename,
    ensures
        appended_to(outlines_of(flush_all_actions(fragments)), filename) == Seq::<
            MemberView,
        >::empty(),
    decreases fragments.len(),
{
    if fragments.len() > 0 {
        let rest = fragments.drop_last();
        let last = fragments.last();
        assert forall|j: int| 0 <= j < rest.len() implies (#[trigger] rest[j]).filename
            != filename by {
            assert(fragments[j].filename != filename);
        }
        lemma_flush_spares(rest, filename);
        lemma_outlines_concat(flush_all_actions(rest), last.flush_actions());
        lemma_appended_concat(
            outlines_of(flush_all_actions(rest)),
            outlines_of(last.flush_actions()),
            filename,
        );
        assert(fragments[fragments.len() - 1].filename != filename);
        lemma_flush_one(last, filename);
    } else {
        assert(outlines_of(flush_all_actions(fragments)) =~= Seq::<ActionOutline>::empty());
    }
}

/// Writing one cache out appends the cache to the file of the fragment, and
/// nothing to any other file.
pub proof fn lemma_flush_one(fragment: FragmentView, filename: Seq<char>)
    ensures
        appended_to(outlines_of(fragment.flush_actions()), filename) == if fragment.filename
            == filename {
            fragment.cache
        } else {
            Seq::empty()
        },
{
    let one = outlines_of(fragment.flush_actions());
    if fragment.cache.len() > 0 {
        assert(one.len() == 1);
        assert(one.drop_last() =~= Seq::<ActionOutline>::empty());
        assert(appended_to(one.drop_last(), filename) =~= Seq::<MemberView>::empty());
        assert(appended_to(one, filename) =~= appends(one.last(), filename));
    } else {
        assert(one =~= Seq::<ActionOutline>::empty());
        assert(fragment.cache =~= Seq::<MemberView>::empty());
    }
}

/// Writing all caches out appends to the file of each fragment the members
/// that waited in its cache, in their order.
pub proof fn lemma_flush_in_order(fragments: Seq<FragmentView>, place: int)
    requires
        names_distinct(fragments),
        0 <= place < fragments.len(),
    ensures
        appended_to(outlines_of(flush_all_actions(fragments)), fragments[place].filename)
            == fragments[place].cache,
    decreases fragments.len(),
{
    let rest = fragments.drop_last();
    let last = fragments.last();
    let filename = fragments[place].filename;
    lemma_outlines_concat(flush_all_actions(rest), last.flush_actions());
    lemma_appended_concat(
        outlines_of(flush_all_actions(rest)),
        outlines_of(last.flush_actions()),
        filename,
    );
    lemma_flush_one(last, filename);
    if place == fragments.len() - 1 {
        assert forall|j: int| 0 <= j < rest.len() implies (#[trigger] rest[j]).filename
            != filename by {
            assert(fragments[j].filename != fragments[place].filename);
        }
        lemma_flush_spares(rest, filename);
        assert(Seq::<MemberView>::empty() + last.cache =~= last.cache);
    } else {
        assert forall|i: int, j: int| 0 <= i < j < rest.len() implies (#[trigger] rest[i]).filename
            != (#[trigger] rest[j]).filename by {
            assert(fragments[i].filename != fragments[j].filename);
        }
        lemma_flush_in_order(rest, place);
        assert(fragments[place].filename != fragments[fragments.len() - 1].filename);
        assert(rest[place].cache + Seq::<MemberView>::empty() =~= rest[place].cache);
    }
}

/// Filing one member keeps the order: what the filing appends to the file of
/// a fragment, followed by what waits in its cache afterwards, is what waited
/// before, followed by the member if the fragment took it.
pub proof fn lemma_filing_in_order(
    fragments: Seq<FragmentView>,
    pos: int,
    member: MemberView,
    place: int,
)
    requires
        names_distinct(fragments),
        0 <= pos < fragments.len(),
        0 <= place < fragments.len(),
    ensures
        appended_to(outlines_of(filing_actions(fragments, pos)), fragments[place].filename)
            + filed(fragments, pos, member)[place].cache == if place == pos {
            fragments[place].cache.push(member)
        } else {
            fragments[place].cache
        },
{
    let appended = appended_to(
        outlines_of(filing_actions(fragments, pos)),
        fragments[place].filename,
    );
    let waits = filed(fragments, pos, member)[place].cache;
    if fragments[pos].is_full() {
        lemma_flush_in_order(fragments, place);
        assert(all_flushed(fragments)[place].cache =~= Seq::<MemberView>::empty());
        if place == pos {
            assert(appended + waits =~= fragments[place].cache.push(member));
        } else {
            assert(appended + waits =~= fragments[place].cache);
        }
    } else {
        assert(outlines_of(filing_actions(fragments, pos)) =~= Seq::<ActionOutline>::empty());
        if place == pos {
            assert(appended + waits =~= fragments[place].cache.push(member));
        } else {
            assert(appended + waits =~= fragments[place].cache);
        }
    }
}

/// Fragments of the same layout send a member of a date to the same place.
pub proof fn lemma_same_destination(
    first: Seq<FragmentView>,
    second: Seq<FragmentView>,
    date: i64,
)
    requires
        first.len() > 0,
        blanked(first) == blanked(second),
    ensures
        destination_of(first, date) == destination_of(second, date),
{
    lemma_destination_exists(first, date);
    let pos = destination_of(first, date);
    assert(blanked(first).len() == first.len());
    assert(blanked(second).len() == second.len());
    assert forall|i: int| 0 <= i < first.len() implies (#[trigger] first[i]).boundary
        == second[i].boundary by {
        assert(blanked(first)[i] == blanked(second)[i]);
        assert(blanked(first)[i].boundary == first[i].boundary);
        assert(blanked(second)[i].boundary == second[i].boundary);
    }
    assert(is_destination(second, date, pos)) by {
        if exists|i: int|
            0 <= i < second.len() && (#[trigger] second[i]).boundary.contains(date) {
            let i = choose|i: int|
                0 <= i < second.len() && (#[trigger] second[i]).boundary.contains(date);
            assert(first[i].boundary.contains(date));
            assert(second[pos].boundary == first[pos].boundary);
            assert forall|j: int| 0 <= j < pos implies !(#[trigger] second[j]).boundary.contains(
                date,
            ) by {
                assert(!first[j].boundary.contains(date));
            }
        } else {
            assert forall|i: int| 0 <= i < first.len() implies !(
            #[trigger] first[i]).boundary.contains(date) by {
                assert(!second[i].boundary.contains(date));
            }
        }
    }
    lemma_destination_unique(second, date, pos);
}

/// Filing members changes nothing of the layout.
pub proof fn lemma_filed_all_layout(fragments: Seq<FragmentView>, members: Seq<MemberView>)
    requires
        fragments.len() > 0,
    ensures
        filed_all(fragments, members).len() == fragments.len(),
        blanked(filed_all(fragments, members)) == blanked(fragments),
    decreases members.len(),
{
    if members.len() > 0 {
        let before = filed_all(fragments, members.drop_last());
        lemma_filed_all_layout(fragments, members.drop_last());
        lemma_destination_exists(before, members.last().date);
        lemma_layout_kept(before, destination_of(before, members.last().date), members.last());
    }
}

/// Fragments of the same layout have the same files.
pub proof fn lemma_layout_names(first: Seq<FragmentView>, second: Seq<FragmentView>)
    requires
        blanked(first) == blanked(second),
    ensures
        first.len() == second.len(),
        forall|i: int| 0 <= i < first.len() ==> (#[trigger] first[i]).filename == second[i].filename,
        names_distinct(first) ==> names_distinct(second),
{
    assert(blanked(first).len() == first.len());
    assert(blanked(second).len() == second.len());
    assert forall|i: int| 0 <= i < first.len() implies (#[trigger] first[i]).filename
        == second[i].filename by {
        assert(blanked(first)[i] == blanked(second)[i]);
        assert(blanked(first)[i].filename == first[i].filename);
        assert(blanked(second)[i].filename == second[i].filename);
    }
    if names_distinct(first) {
        assert forall|i: int, j: int| 0 <= i < j < second.len() implies (
        #[trigger] second[i]).filename != (#[trigger] second[j]).filename by {
            assert(first[i].filename != first[j].filename);
        }
    }
}

/// The members in the file of a leaf stand in the order of their arrival:
/// what the filing of the members appends to the file of a leaf, followed by
/// what waits in the cache of the leaf afterwards, is what waited there
/// before, followed by the members that went to the leaf, in their order.
pub proof fn lemma_filing_all_in_order(
    fragments: Seq<FragmentView>,
    members: Seq<MemberView>,
    place: int,
)
    requires
        names_distinct(fragments),
        0 <= place < fragments.len(),
    ensures
        filed_all(fragments, members).len() == fragments.len(),
        appended_to(
            outlines_of(filing_all_actions(fragments, members)),
            fragments[place].filename,
        ) + filed_all(fragments, members)[place].cache == fragments[place].cache + routed_to(
            fragments,
            members,
            place,
        ),
    decreases members.len(),
{
    let filename = fragments[place].filename;
    lemma_filed_all_layout(fragments, members);
    if members.len() == 0 {
        assert(outlines_of(filing_all_actions(fragments, members)) =~= Seq::<
            ActionOutline,
        >::empty());
        assert(appended_to(outlines_of(filing_all_actions(fragments, members)), filename)
            + filed_all(fragments, members)[place].cache =~= fragments[place].cache + routed_to(
            fragments,
            members,
            place,
        ));
    } else {
        let earlier = members.drop_last();
        let member = members.last();
        let before = filed_all(fragments, earlier);
        lemma_filing_all_in_order(fragments, earlier, place);
        lemma_filed_all_layout(fragments, earlier);
        lemma_layout_names(fragments, before);
        lemma_same_destination(fragments, before, member.date);
        lemma_destination_exists(before, member.date);
        let pos = destination_of(before, member.date);
        lemma_filing_in_order(before, pos, member, place);
        lemma_outlines_concat(
            filing_all_actions(fragments, earlier),
            filing_actions(before, pos),
        );
        lemma_appended_concat(
            outlines_of(filing_all_actions(fragments, earlier)),
            outlines_of(filing_actions(before, pos)),
            filename,
        );
        let early = appended_to(outlines_of(filing_all_actions(fragments, earlier)), filename);
        let late = appended_to(outlines_of(filing_actions(before, pos)), filename);
        let waits = filed_all(fragments, members)[place].cache;
        assert(early + before[place].cache == fragments[place].cache + routed_to(
            fragments,
            earlier,
            place,
        ));
        if place == pos {
            assert(late + waits == before[place].cache.push(member));
            assert((early + late) + waits =~= (early + before[place].cache).push(member));
            assert((early + late) + waits =~= fragments[place].cache + routed_to(
                fragments,
                members,
                place,
            ));
        } else {
            assert(late + waits == before[place].cache);
            assert((early + late) + waits =~= early + before[place].cache);
            assert((early + late) + waits =~= fragments[place].cache + routed_to(
                fragments,
                members,
                place,
            ));
        }
    }
}

/// Actions that write no member append nothing to any file.
pub proof fn lemma_appended_nothing(outlines: Seq<ActionOutline>, filename: Seq<char>)
    requires
        writes_no_member(outlines),
    ensures
        appended_to(outlines, filename) == Seq::<MemberView>::empty(),
    decreases outlines.len(),
{
    if outlines.len() > 0 {
        lemma_appended_nothing(outlines.drop_last(), filename);
        assert(!(outlines[outlines.len() - 1] is AppendMembers));
    }
}

/// The leaves of a new row have files of their own.
pub proof fn lemma_first_row_names(
    n_fragments: usize,
    max_size_cache: usize,
    highest_date: i64,
    lowest_date: i64,
)
    ensures
        names_distinct(first_row(n_fragments, max_size_cache, highest_date, lowest_date)),
{
    let row = first_row(n_fragments, max_size_cache, highest_date, lowest_date);
    assert forall|i: int, j: int| 0 <= i < j < row.len() implies (#[trigger] row[i]).filename != (
    #[trigger] row[j]).filename by {
        if leaf_name(i) == leaf_name(j) {
            let a = decimal_text((i + 1) as nat);
            let b = decimal_text((j + 1) as nat);
            let tail = ".ttl"@;
            assert((a + tail).len() == a.len() + tail.len());
            assert((b + tail).len() == b.len() + tail.len());
            assert(a =~= (a + tail).subrange(0, a.len() as int));
            assert(b =~= (b + tail).subrange(0, b.len() as int));
            lemma_decimal_injective((i + 1) as nat, (j + 1) as nat);
        }
    }
}

/// In the file of each leaf of a one-ary tree, the members stand in the
/// order of their arrival: what laying the tree out, filing the members and
/// publishing the tree append to the file of a leaf are the members that went
/// to the leaf, in their order, and no other.
pub proof fn lemma_leaf_file_in_order(
    n_fragments: usize,
    max_size_cache: usize,
    highest_date: i64,
    lowest_date: i64,
    members: Seq<MemberView>,
    fragmentation_property: Seq<char>,
    server_address: Seq<char>,
    place: int,
)
    requires
        0 <= place < n_fragments,
    ensures
        ({
            let row = first_row(n_fragments, max_size_cache, highest_date, lowest_date);
            let filled = filed_all(row, members);
            appended_to(
                construction_outline(row, fragmentation_property, server_address) + outlines_of(
                    filing_all_actions(row, members),
                ) + publication_outline(filled, fragmentation_property, server_address),
                leaf_name(place),
            ) == routed_to(row, members, place)
        }),
{
    let row = first_row(n_fragments, max_size_cache, highest_date, lowest_date);
    let filled = filed_all(row, members);
    let filename = leaf_name(place);
    let laying = construction_outline(row, fragmentation_property, server_address);
    let filing = outlines_of(filing_all_actions(row, members));
    let flushing = outlines_of(flush_all_actions(filled));
    let removing = outlines_of(removals(all_flushed(filled)));
    let publishing = publication(
        survivors(all_flushed(filled)),
        fragmentation_property,
        server_address,
    );
    lemma_first_row_names(n_fragments, max_size_cache, highest_date, lowest_date);
    lemma_filing_all_in_order(row, members, place);
    lemma_filed_all_layout(row, members);
    lemma_layout_names(row, filled);
    lemma_flush_in_order(filled, place);
    lemma_publication_writes_nothing(row, fragmentation_property, server_address);
    lemma_nothing_concat(
        outlines_of(creations(row)),
        publication(row, fragmentation_property, server_address),
    );
    lemma_appended_nothing(laying, filename);
    lemma_removals_write_nothing(all_flushed(filled));
    lemma_publication_writes_nothing(
        survivors(all_flushed(filled)),
        fragmentation_property,
        server_address,
    );
    lemma_nothing_concat(removing, publishing);
    lemma_appended_nothing(removing + publishing, filename);
    let published = publication_outline(filled, fragmentation_property, server_address);
    assert(published =~= flushing + (removing + publishing));
    lemma_appended_concat(flushing, removing + publishing, filename);
    lemma_appended_concat(laying, filing, filename);
    lemma_appended_concat(laying + filing, published, filename);
    assert(row[place].cache =~= Seq::<MemberView>::empty());
    assert(appended_to(laying + filing + published, filename) =~= routed_to(
        row,
        members,
        place,
    ));
}

} // verus!
