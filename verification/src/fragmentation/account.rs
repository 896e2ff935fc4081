//! The account of the members: what was filed is in a cache or was written.

use super::action::{ActionOutline, lemma_outlines_concat, outlines_of};
use super::fragment::FragmentView;
use super::{
    all_flushed, all_written, destination_of, filed, filed_all, filing_actions, filing_all_actions,
    flush_all_actions, lemma_destination_exists, removals,
};
use crate::member::MemberView;
use vstd::multiset::*;
use vstd::prelude::*;
use vstd::seq_lib::*;

verus! {

/// The members that one action writes.
pub open spec fn members_in(outline: ActionOutline) -> Multiset<MemberView> {
    match outline {
        ActionOutline::AppendMembers { members, .. } => members.to_multiset(),
        _ => Multiset::empty(),
    }
}

/// The members that the actions write, each as often as it is written.
pub open spec fn written(outlines: Seq<ActionOutline>) -> Multiset<MemberView>
    decreases outlines.len(),
{
    if outlines.len() == 0 {
        Multiset::empty()
    } else {
        written(outlines.drop_last()).add(members_in(outlines.last()))
    }
}

/// The members that wait in the caches, each as often as it waits.
pub open spec fn cached(fragments: Seq<FragmentView>) -> Multiset<MemberView>
    decreases fragments.len(),
{
    if fragments.len() == 0 {
        Multiset::empty()
    } else {
        cached(fragments.drop_last()).add(fragments.last().cache.to_multiset())
    }
}

/// None of the actions writes members.
pub open spec fn writes_no_member(outlines: Seq<ActionOutline>) -> bool {
    forall|i: int| 0 <= i < outlines.len() ==> !((#[trigger] outlines[i]) is AppendMembers)
}

/// No member is in an empty run of members.
pub proof fn lemma_no_members()
    ensures
        Seq::<MemberView>::empty().to_multiset() == Multiset::<MemberView>::empty(),
{
    broadcast use group_multiset_axioms;

    let none = Seq::<MemberView>::empty().to_multiset();
    to_multiset_len(Seq::<MemberView>::empty());
    lemma_multiset_empty_len(none);
    assert(none =~= Multiset::<MemberView>::empty());
}

/// What two runs of actions write is what the first writes and what the
/// second writes.
pub proof fn lemma_written_concat(first: Seq<ActionOutline>, second: Seq<ActionOutline>)
    ensures
        written(first + second) == written(first).add(written(second)),
    decreases second.len(),
{
    broadcast use group_multiset_axioms;

    if second.len() == 0 {
        assert(first + second =~= first);
        assert forall|v: MemberView|
            written(first + second).count(v) == written(first).add(written(second)).count(
                v,
            ) by {}
    } else {
        lemma_written_concat(first, second.drop_last());
        assert((first + second).drop_last() =~= first + second.drop_last());
        assert((first + second).last() == second.last());
        assert forall|v: MemberView|
            written(first + second).count(v) == written(first).add(written(second)).count(
                v,
            ) by {
            assert(written(first + second.drop_last()).count(v) == written(first).add(
                written(second.drop_last()),
            ).count(v));
        }
    }
    assert(written(first + second) =~= written(first).add(written(second)));
}

/// Actions that write no member write nothing.
pub proof fn lemma_written_nothing(outlines: Seq<ActionOutline>)
    requires
        writes_no_member(outlines),
    ensures
        written(outlines) == Multiset::<MemberView>::empty(),
    decreases outlines.len(),
{
    broadcast use group_multiset_axioms;

    if outlines.len() > 0 {
        lemma_written_nothing(outlines.drop_last());
        assert(!(outlines[outlines.len() - 1] is AppendMembers));
        assert forall|v: MemberView| written(outlines).count(v) == 0 by {
            assert(written(outlines.drop_last()).count(v) == 0);
        }
        assert(written(outlines) =~= Multiset::<MemberView>::empty());
    }
}

/// Where every cache is empty, no member waits.
pub proof fn lemma_cached_nothing(fragments: Seq<FragmentView>)
    requires
        all_written(fragments),
    ensures
        cached(fragments) == Multiset::<MemberView>::empty(),
    decreases fragments.len(),
{
    broadcast use group_multiset_axioms;

    if fragments.len() > 0 {
        let rest = fragments.drop_last();
        assert forall|i: int| 0 <= i < rest.len() implies (#[trigger] rest[i]).cache.len() == 0 by {
            assert(fragments[i].cache.len() == 0);
        }
        lemma_cached_nothing(rest);
        assert(fragments[fragments.len() - 1].cache.len() == 0);
        assert(fragments.last().cache =~= Seq::<MemberView>::empty());
        lemma_no_members();
        assert forall|v: MemberView| cached(fragments).count(v) == 0 by {
            assert(cached(rest).count(v) == 0);
        }
        assert(cached(fragments) =~= Multiset::<MemberView>::empty());
    }
}

/// What one fragment's flush writes is what waits in its cache.
pub proof fn lemma_flush_one(fragment: FragmentView)
    ensures
        written(outlines_of(fragment.flush_actions())) == fragment.cache.to_multiset(),
{
    broadcast use group_multiset_axioms;

    let one = outlines_of(fragment.flush_actions());
    if fragment.cache.len() > 0 {
        assert(one.len() == 1);
        assert(one.drop_last() =~= Seq::<ActionOutline>::empty());
        assert(members_in(one.last()) == fragment.cache.to_multiset());
        assert forall|v: MemberView|
            written(one).count(v) == fragment.cache.to_multiset().count(v) by {
            assert(written(one.drop_last()).count(v) == 0);
        }
    } else {
        assert(fragment.cache =~= Seq::<MemberView>::empty());
        assert(one =~= Seq::<ActionOutline>::empty());
        lemma_no_members();
    }
    assert(written(one) =~= fragment.cache.to_multiset());
}

/// Writing all caches out writes the members that waited, and leaves none
/// waiting.
pub proof fn lemma_flush_accounts(fragments: Seq<FragmentView>)
    ensures
        written(outlines_of(flush_all_actions(fragments))) == cached(fragments),
        cached(all_flushed(fragments)) == Multiset::<MemberView>::empty(),
    decreases fragments.len(),
{
    broadcast use group_multiset_axioms;

    if fragments.len() > 0 {
        let rest = fragments.drop_last();
        let last = fragments.last();
        lemma_flush_accounts(rest);
        lemma_outlines_concat(flush_all_actions(rest), last.flush_actions());
        lemma_written_concat(
            outlines_of(flush_all_actions(rest)),
            outlines_of(last.flush_actions()),
        );
        lemma_flush_one(last);
        assert(written(outlines_of(flush_all_actions(fragments))) =~= cached(fragments));
    } else {
        assert(outlines_of(flush_all_actions(fragments)) =~= Seq::<ActionOutline>::empty());
    }
    assert forall|i: int| 0 <= i < all_flushed(fragments).len() implies (#[trigger] all_flushed(
        fragments,
    )[i]).cache.len() == 0 by {}
    lemma_cached_nothing(all_flushed(fragments));
}

/// Replacing one fragment replaces what waits in its cache.
pub proof fn lemma_cached_update(fragments: Seq<FragmentView>, i: int, fragment: FragmentView)
    requires
        0 <= i < fragments.len(),
    ensures
        cached(fragments.update(i, fragment)).add(fragments[i].cache.to_multiset()) == cached(
            fragments,
        ).add(fragment.cache.to_multiset()),
    decreases fragments.len(),
{
    broadcast use group_multiset_axioms;

    let updated = fragments.update(i, fragment);
    let rest = fragments.drop_last();
    let gone = fragments[i].cache.to_multiset();
    let come = fragment.cache.to_multiset();
    if i < fragments.len() - 1 {
        lemma_cached_update(rest, i, fragment);
        assert(updated.drop_last() =~= rest.update(i, fragment));
        assert(updated.last() == fragments.last());
        assert(rest[i] == fragments[i]);
        assert forall|v: MemberView|
            cached(updated).add(gone).count(v) == cached(fragments).add(come).count(v) by {
            assert(cached(rest.update(i, fragment)).add(gone).count(v) == cached(rest).add(
                come,
            ).count(v));
        }
    } else {
        assert(updated.drop_last() =~= rest);
        assert(updated.last() == fragment);
        assert forall|v: MemberView|
            cached(updated).add(gone).count(v) == cached(fragments).add(come).count(v) by {}
    }
    assert(cached(updated).add(gone) =~= cached(fragments).add(come));
}

/// Filing a member keeps the account: what is written on the way, and what
/// waits afterwards, is what waited before and the member.
pub proof fn lemma_filing_accounts(fragments: Seq<FragmentView>, pos: int, member: MemberView)
    requires
        0 <= pos < fragments.len(),
    ensures
        written(outlines_of(filing_actions(fragments, pos))).add(
            cached(filed(fragments, pos, member)),
        ) == cached(fragments).insert(member),
{
    broadcast use group_multiset_axioms;

    let wrote = written(outlines_of(filing_actions(fragments, pos)));
    let waits = cached(filed(fragments, pos, member));
    if fragments[pos].is_full() {
        let flushed = all_flushed(fragments);
        let taker = fragments[pos].flushed().with_member(member);
        lemma_flush_accounts(fragments);
        lemma_cached_update(flushed, pos, taker);
        assert(flushed[pos].cache =~= Seq::<MemberView>::empty());
        assert(taker.cache =~= Seq::<MemberView>::empty().push(member));
        lemma_no_members();
        to_multiset_build(Seq::<MemberView>::empty(), member);
        assert forall|v: MemberView|
            wrote.add(waits).count(v) == cached(fragments).insert(member).count(v) by {
            assert(cached(flushed.update(pos, taker)).add(flushed[pos].cache.to_multiset()).count(
                v,
            ) == cached(flushed).add(taker.cache.to_multiset()).count(v));
        }
    } else {
        let taker = fragments[pos].with_member(member);
        lemma_cached_update(fragments, pos, taker);
        assert(outlines_of(filing_actions(fragments, pos)) =~= Seq::<ActionOutline>::empty());
        to_multiset_build(fragments[pos].cache, member);
        assert forall|v: MemberView|
            wrote.add(waits).count(v) == cached(fragments).insert(member).count(v) by {
            assert(cached(fragments.update(pos, taker)).add(
                fragments[pos].cache.to_multiset(),
            ).count(v) == cached(fragments).add(taker.cache.to_multiset()).count(v));
        }
    }
    assert(wrote.add(waits) =~= cached(fragments).insert(member));
}

/// One more step of an account: where what was written and what waits made
/// up what waited at first and what was filed, and one more member is filed,
/// they make up what waited at first and what was filed with that member.
pub proof fn lemma_account_step(
    wrote: Multiset<MemberView>,
    waited: Multiset<MemberView>,
    first: Multiset<MemberView>,
    taken: Multiset<MemberView>,
    writes: Multiset<MemberView>,
    waits: Multiset<MemberView>,
    member: MemberView,
)
    requires
        wrote.add(waited) == first.add(taken),
        writes.add(waits) == waited.insert(member),
    ensures
        wrote.add(writes).add(waits) == first.add(taken.insert(member)),
{
    broadcast use group_multiset_axioms;

    assert forall|v: MemberView|
        wrote.add(writes).add(waits).count(v) == first.add(taken.insert(member)).count(v) by {
        assert(wrote.add(waited).count(v) == first.add(taken).count(v));
        assert(writes.add(waits).count(v) == waited.insert(member).count(v));
        assert(wrote.add(waited).count(v) == wrote.count(v) + waited.count(v));
        assert(first.add(taken).count(v) == first.count(v) + taken.count(v));
        assert(writes.add(waits).count(v) == writes.count(v) + waits.count(v));
        assert(wrote.add(writes).count(v) == wrote.count(v) + writes.count(v));
        assert(wrote.add(writes).add(waits).count(v) == wrote.add(writes).count(v) + waits.count(
            v,
        ));
        assert(first.add(taken.insert(member)).count(v) == first.count(v) + taken.insert(
            member,
        ).count(v));
        if v == member {
            lemma_insert_increases_count_by_1(waited, member);
            lemma_insert_increases_count_by_1(taken, member);
        } else {
            lemma_insert_other_elements_unchanged(waited, member, v);
            lemma_insert_other_elements_unchanged(taken, member, v);
        }
    }
    assert(wrote.add(writes).add(waits) =~= first.add(taken.insert(member)));
}

/// Filing members one by one keeps the account: what is written on the way,
/// and what waits afterwards, is what waited before and the members.
pub proof fn lemma_filing_all_accounts(fragments: Seq<FragmentView>, members: Seq<MemberView>)
    requires
        fragments.len() > 0,
    ensures
        filed_all(fragments, members).len() == fragments.len(),
        written(outlines_of(filing_all_actions(fragments, members))).add(
            cached(filed_all(fragments, members)),
        ) == cached(fragments).add(members.to_multiset()),
    decreases members.len(),
{
    broadcast use group_multiset_axioms;

    if members.len() == 0 {
        assert(members =~= Seq::<MemberView>::empty());
        lemma_no_members();
        assert(outlines_of(filing_all_actions(fragments, members)) =~= Seq::<
            ActionOutline,
        >::empty());
        assert(written(outlines_of(filing_all_actions(fragments, members))).add(
            cached(filed_all(fragments, members)),
        ) =~= cached(fragments).add(members.to_multiset()));
    } else {
        let earlier = members.drop_last();
        let member = members.last();
        let before = filed_all(fragments, earlier);
        lemma_filing_all_accounts(fragments, earlier);
        lemma_destination_exists(before, member.date);
        let pos = destination_of(before, member.date);
        lemma_filing_accounts(before, pos, member);
        lemma_outlines_concat(
            filing_all_actions(fragments, earlier),
            filing_actions(before, pos),
        );
        lemma_written_concat(
            outlines_of(filing_all_actions(fragments, earlier)),
            outlines_of(filing_actions(before, pos)),
        );
        assert(earlier.push(member) =~= members);
        to_multiset_build(earlier, member);
        lemma_account_step(
            written(outlines_of(filing_all_actions(fragments, earlier))),
            cached(before),
            cached(fragments),
            earlier.to_multiset(),
            written(outlines_of(filing_actions(before, pos))),
            cached(filed(before, pos, member)),
            member,
        );
    }
}

/// The account of a whole run: where laying out writes nothing, nothing
/// waits at first, and publishing writes what waits after the filing, the
/// three runs of actions write the members that were filed, each once.
pub proof fn lemma_account_closed(
    laying: Seq<ActionOutline>,
    filing: Seq<ActionOutline>,
    publishing: Seq<ActionOutline>,
    first: Multiset<MemberView>,
    waits: Multiset<MemberView>,
    members: Multiset<MemberView>,
)
    requires
        written(laying) == Multiset::<MemberView>::empty(),
        first == Multiset::<MemberView>::empty(),
        written(filing).add(waits) == first.add(members),
        written(publishing) == waits,
    ensures
        written(laying + filing + publishing) == members,
{
    broadcast use group_multiset_axioms;

    lemma_written_concat(laying, filing);
    lemma_written_concat(laying + filing, publishing);
    let all = written(laying + filing + publishing);
    assert forall|v: MemberView| all.count(v) == members.count(v) by {
        assert(written(filing).add(waits).count(v) == first.add(members).count(v));
        assert(written(filing).add(waits).count(v) == written(filing).count(v) + waits.count(v));
        assert(first.add(members).count(v) == first.count(v) + members.count(v));
        assert(first.count(v) == 0);
        assert(written(laying).count(v) == 0);
        assert(written(laying).add(written(filing)).count(v) == written(laying).count(v)
            + written(filing).count(v));
        assert(written(laying + filing).add(written(publishing)).count(v) == written(
            laying + filing,
        ).count(v) + written(publishing).count(v));
    }
    assert(all =~= members);
}

/// Deleting the files of the fragments without members writes no member.
pub proof fn lemma_removals_write_nothing(fragments: Seq<FragmentView>)
    ensures
        writes_no_member(outlines_of(removals(fragments))),
    decreases fragments.len(),
{
    if fragments.len() > 0 {
        lemma_removals_write_nothing(fragments.drop_last());
        let rest = outlines_of(removals(fragments.drop_last()));
        let all = outlines_of(removals(fragments));
        if fragments.last().size == 0 {
            assert(all.drop_last() =~= rest);
            assert forall|i: int| 0 <= i < all.len() implies !((#[trigger] all[i]) is AppendMembers) by {
                if i < rest.len() {
                    assert(all[i] == rest[i]);
                }
            }
        }
    }
}

/// Actions that write no member, one run after the other, write no member.
pub proof fn lemma_nothing_concat(first: Seq<ActionOutline>, second: Seq<ActionOutline>)
    requires
        writes_no_member(first),
        writes_no_member(second),
    ensures
        writes_no_member(first + second),
{
    assert forall|i: int| 0 <= i < (first + second).len() implies !((#[trigger] (first
        + second)[i]) is AppendMembers) by {
        if i < first.len() {
            assert((first + second)[i] == first[i]);
        } else {
            assert((first + second)[i] == second[i - first.len()]);
        }
    }
}

} // verus!
