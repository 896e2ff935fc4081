//! The linked list: the leaves of a one-ary tree, each pointing to the next.

use super::account::{
    cached, lemma_flush_accounts, lemma_nothing_concat, lemma_removals_write_nothing,
    lemma_written_concat, lemma_written_nothing, written,
};
use super::action::{
    action_outlines, action_views, ActionOutline, FileAction, lemma_views_concat, outlines_of,
};
use super::fragment::{Boundary, Fragment, fragment_views, FragmentView};
use super::one_ary_tree_fragmentation::{
    construction_outline, first_row, OneAryTreeFragmentation, valid_range,
};
use super::{
    all_flushed, covers_calendar, all_widened, create_report, engine_wf, filed, filed_all, filing_actions,
    filing_all_actions, flush_all_actions, Fragmentation, FragmentationError, FragmentationView,
    is_destination, kept_boundaries, kept_intervals, lemma_all_flushed, lemma_all_widened,
    lemma_survivors, removals, report_entries, report_name, root_name, survivors, total_size,
};
use crate::fragmentation::fragment::fresh_identifier;
use crate::member::{Member, MemberView};
use crate::text::join;
use crate::tree::{Relation, relation_links, relation_views, RelationLink};
use vstd::multiset::*;
use vstd::prelude::*;
use vstd::string::*;

verus! {

/// The linked list: a one-ary tree whose leaves, once published, accept every
/// date and point each to the next.
#[derive(Debug)]
pub struct LinkedListFragmentation {
    one_ary_tree_fragmentation: OneAryTreeFragmentation,
}

/// What the root of a linked list says: that the first leaf follows, and
/// nothing of its members.
pub open spec fn entry_link(server_address: Seq<char>) -> RelationLink {
    RelationLink {
        path: None,
        value: None,
        node: server_address + "1.ttl"@,
        relation_type: None,
        current_node_iri: server_address + root_name(),
    }
}

/// The names of the files of the fragments.
pub open spec fn file_names(fragments: Seq<FragmentView>) -> Seq<Seq<char>> {
    fragments.map_values(|f: FragmentView| f.filename)
}

/// The actions that chain the leaves: each leaf but the last receives the
/// relations to the next leaf, which state the closed ends of the next leaf's
/// interval.
pub open spec fn chain(
    names: Seq<Seq<char>>,
    intervals: Seq<Boundary>,
    fragmentation_property: Seq<char>,
    server_address: Seq<char>,
) -> Seq<ActionOutline> {
    Seq::new(
        if names.len() > 0 {
            (names.len() - 1) as nat
        } else {
            0
        },
        |i: int|
            ActionOutline::AppendRelations {
                filename: names[i],
                relations: intervals[i + 1].links(
                    names[i],
                    names[i + 1],
                    fragmentation_property,
                    server_address,
                ),
            },
    )
}

/// The leaves of a published list: those with members, their caches written
/// out and their intervals widened.
pub open spec fn published_leaves(fragments: Seq<FragmentView>) -> Seq<FragmentView> {
    all_flushed(all_widened(survivors(fragments)))
}

/// The actions that publish a linked list, apart from the identifiers of the
/// relations: the caches are written out, the files of the leaves without
/// members are deleted, the root document is written, the leaves that stay
/// are chained by the intervals that they had for filing, and the summary is
/// written.
pub open spec fn list_publication_outline(
    fragments: Seq<FragmentView>,
    fragmentation_property: Seq<char>,
    server_address: Seq<char>,
) -> Seq<ActionOutline> {
    outlines_of(flush_all_actions(fragments)) + outlines_of(removals(all_flushed(fragments)))
        + seq![
        ActionOutline::WriteRelations {
            filename: root_name(),
            relations: seq![entry_link(server_address)],
        },
    ] + chain(
        file_names(survivors(fragments)),
        kept_intervals(fragments),
        fragmentation_property,
        server_address,
    ) + seq![
        ActionOutline::WriteReport {
            filename: report_name(),
            entries: report_entries(published_leaves(fragments)),
        },
    ]
}

/// Publishing a linked list writes the members that waited in the caches,
/// and no other.
pub proof fn lemma_list_publication_accounts(
    fragments: Seq<FragmentView>,
    fragmentation_property: Seq<char>,
    server_address: Seq<char>,
)
    ensures
        written(list_publication_outline(fragments, fragmentation_property, server_address))
            == cached(fragments),
{
    let flushing = outlines_of(flush_all_actions(fragments));
    let removing = outlines_of(removals(all_flushed(fragments)));
    let root = seq![
        ActionOutline::WriteRelations {
            filename: root_name(),
            relations: seq![entry_link(server_address)],
        },
    ];
    let chaining = chain(
        file_names(survivors(fragments)),
        kept_intervals(fragments),
        fragmentation_property,
        server_address,
    );
    let report = seq![
        ActionOutline::WriteReport {
            filename: report_name(),
            entries: report_entries(published_leaves(fragments)),
        },
    ];
    let rest = removing + root + chaining + report;
    lemma_flush_accounts(fragments);
    lemma_removals_write_nothing(all_flushed(fragments));
    lemma_nothing_concat(removing, root);
    lemma_nothing_concat(removing + root, chaining);
    lemma_nothing_concat(removing + root + chaining, report);
    lemma_written_nothing(rest);
    lemma_written_concat(flushing, rest);
    assert(flushing + removing + root + chaining + report =~= flushing + rest);
    assert(written(flushing).add(Multiset::<MemberView>::empty()) =~= written(flushing));
}

impl View for LinkedListFragmentation {
    type V = FragmentationView;

    closed spec fn view(&self) -> FragmentationView {
        self.one_ary_tree_fragmentation@
    }
}

impl LinkedListFragmentation {
    /// A new linked list of `n_fragments` leaves that cut the range of dates
    /// into equal parts, the first and the last leaf open-ended. The actions
    /// create the files of the leaves and write a first root document and a
    /// first summary.
    pub fn new(
        n_fragments: usize,
        max_size_cache: usize,
        highest_date: i64,
        lowest_date: i64,
        server_address: String,
        fragmentation_property: String,
        tree_id: String,
    ) -> (r: (Self, Vec<FileAction>))
        requires
            valid_range(n_fragments, highest_date, lowest_date),
        ensures
            r.0@ == (FragmentationView {
                fragments: first_row(n_fragments, max_size_cache, highest_date, lowest_date),
                max_size_cache,
                server_address: server_address@,
                fragmentation_property: fragmentation_property@,
            }),
            engine_wf(r.0@),
            covers_calendar(r.0@.fragments),
            r.0.spec_tree_id() == tree_id@,
            action_outlines(r.1@) == construction_outline(
                r.0@.fragments,
                fragmentation_property@,
                server_address@,
            ),
    {
        let (one_ary_tree_fragmentation, actions) = OneAryTreeFragmentation::new(
            n_fragments,
            max_size_cache,
            highest_date,
            lowest_date,
            server_address,
            fragmentation_property,
            tree_id,
        );
        (Self { one_ary_tree_fragmentation }, actions)
    }

    /// The identifier reserved for the tree.
    pub closed spec fn spec_tree_id(&self) -> Seq<char> {
        self.one_ary_tree_fragmentation.spec_tree_id()
    }

    /// The identifier reserved for the tree.
    pub fn tree_id(&self) -> (r: &String)
        ensures
            r@ == self.spec_tree_id(),
    {
        self.one_ary_tree_fragmentation.tree_id()
    }

    /// Files the members, one by one in their order, as the one-ary tree
    /// does. Where the caches have no room for a single member, the first
    /// member is refused and nothing changes.
    pub fn insert_all(&mut self, members: &Vec<Member>) -> (r: Result<
        Vec<FileAction>,
        FragmentationError,
    >)
        requires
            engine_wf(old(self)@),
            old(self)@.fragments.len() > 0,
            total_size(old(self)@.fragments) + members.len() <= usize::MAX,
        ensures
            engine_wf(final(self)@),
            final(self).spec_tree_id() == old(self).spec_tree_id(),
            r is Ok <==> members.len() == 0 || old(self)@.max_size_cache >= 2,
            match r {
                Ok(actions) => {
                    &&& final(self)@ == (FragmentationView {
                        fragments: filed_all(
                            old(self)@.fragments,
                            crate::member::member_views(members@),
                        ),
                        ..old(self)@
                    })
                    &&& action_views(actions@) == filing_all_actions(
                        old(self)@.fragments,
                        crate::member::member_views(members@),
                    )
                    &&& total_size(final(self)@.fragments) == total_size(old(self)@.fragments)
                        + members.len()
                },
                Err(e) => e == FragmentationError::CacheFull && final(self)@ == old(self)@,
            },
    {
        self.one_ary_tree_fragmentation.insert_all(members)
    }

    /// The action that writes the root document: a single link to the first
    /// leaf, which says nothing of the members behind it.
    pub fn generate_root_node(&self) -> (r: FileAction)
        ensures
            r@.outline() == (ActionOutline::WriteRelations {
                filename: root_name(),
                relations: seq![entry_link(self@.server_address)],
            }),
    {
        let server = self.one_ary_tree_fragmentation.server_address();
        let relation = Relation::new_unconstraint(
            join(server.as_str(), "1.ttl"),
            join(server.as_str(), "0.ttl"),
            fresh_identifier(),
        );
        let mut relations: Vec<Relation> = Vec::new();
        relations.push(relation);
        let action = FileAction::WriteRelations { filename: String::from_str("0.ttl"), relations };
        assert(super::action::links_of(relation_views(relations@)) =~= seq![
            entry_link(self@.server_address),
        ]);
        action
    }

    /// Widens the interval of every leaf so that it accepts every date.
    pub fn set_up_boundary_to_infinity(&mut self)
        ensures
            final(self)@ == (FragmentationView {
                fragments: all_widened(old(self)@.fragments),
                ..old(self)@
            }),
            final(self).spec_tree_id() == old(self).spec_tree_id(),
    {
        self.one_ary_tree_fragmentation.set_up_boundary_to_infinity();
    }

    /// The actions that chain the leaves: each leaf but the last receives the
    /// relations to the next leaf, which state the closed ends of the interval
    /// that `intervals` holds for the next leaf.
    pub fn add_relation_to_nodes(&self, intervals: &Vec<Boundary>) -> (r: Vec<FileAction>)
        requires
            intervals.len() == self@.fragments.len(),
            forall|i: int| 0 <= i < intervals.len() ==> (#[trigger] intervals@[i]).writable(),
        ensures
            action_outlines(r@) == chain(
                file_names(self@.fragments),
                intervals@,
                self@.fragmentation_property,
                self@.server_address,
            ),
    {
        let fragments = self.one_ary_tree_fragmentation.fragments();
        let property = self.one_ary_tree_fragmentation.fragmentation_property();
        let server = self.one_ary_tree_fragmentation.server_address();
        let ghost names = file_names(self@.fragments);
        let ghost expected = chain(names, intervals@, property@, server@);
        let mut actions: Vec<FileAction> = Vec::new();
        if fragments.len() == 0 {
            assert(action_outlines(actions@) =~= expected);
            return actions;
        }
        let mut i: usize = 0;
        while i < fragments.len() - 1
            invariant
                fragments.len() > 0,
                i <= fragments.len() - 1,
                fragment_views(fragments@) == self@.fragments,
                names == file_names(self@.fragments),
                intervals.len() == fragments.len(),
                forall|k: int| 0 <= k < intervals.len() ==> (#[trigger] intervals@[k]).writable(),
                expected == chain(names, intervals@, property@, server@),
                actions.len() == i,
                forall|k: int| 0 <= k < i ==> (#[trigger] actions@[k])@.outline() == expected[k],
            decreases fragments.len() - i,
        {
            let fragment_1 = &fragments[i];
            let fragment_2 = &fragments[i + 1];
            assert(fragment_1@ == self@.fragments[i as int]);
            assert(fragment_2@ == self@.fragments[i + 1]);
            assert(intervals@[i + 1].writable());
            let relations = intervals[i + 1].to_relation(
                fragment_1.filename(),
                fragment_2.filename(),
                property,
                server,
            );
            assert(super::action::links_of(relation_views(relations@)) =~= relation_links(
                relations@,
            ));
            actions.push(fragment_1.materialize_relation(relations));
            i += 1;
        }
        assert(action_outlines(actions@) =~= expected);
        actions
    }
}

impl Fragmentation for LinkedListFragmentation {
    open spec fn model(&self) -> FragmentationView {
        self@
    }

    /// Files a member as the one-ary tree does: with the first leaf whose
    /// interval holds its date, or with the first leaf of all.
    fn insert(&mut self, member: &Member) -> (r: Result<Vec<FileAction>, FragmentationError>)
        ensures
            engine_wf(final(self)@),
            final(self).spec_tree_id() == old(self).spec_tree_id(),
            r is Ok <==> old(self)@.max_size_cache >= 2,
            match r {
                Ok(actions) => exists|pos: int|
                    {
                        &&& is_destination(old(self)@.fragments, member.date, pos)
                        &&& final(self)@ == (FragmentationView {
                            fragments: filed(old(self)@.fragments, pos, member@),
                            ..old(self)@
                        })
                        &&& action_views(actions@) == filing_actions(old(self)@.fragments, pos)
                    },
                Err(e) => e == FragmentationError::CacheFull && final(self)@ == old(self)@,
            },
    {
        self.one_ary_tree_fragmentation.insert(member)
    }

    /// Publishes the list: the leaves with members are kept, with their
    /// caches written out and their intervals widened; the root document
    /// points to the first leaf, each leaf to the next, and the summary is
    /// written.
    fn finalize(&mut self) -> (r: Vec<FileAction>)
        ensures
            final(self).spec_tree_id() == old(self).spec_tree_id(),
            final(self)@ == (FragmentationView {
                fragments: published_leaves(old(self)@.fragments),
                ..old(self)@
            }),
            action_outlines(r@) == list_publication_outline(
                old(self)@.fragments,
                old(self)@.fragmentation_property,
                old(self)@.server_address,
            ),
    {
        let ghost before = self@.fragments;
        let ghost capacity = self@.max_size_cache;
        proof {
            lemma_list_publication_accounts(
                before,
                self@.fragmentation_property,
                self@.server_address,
            );
        }
        let intervals = kept_boundaries(self.one_ary_tree_fragmentation.fragments());
        self.set_up_boundary_to_infinity();
        let mut actions = self.one_ary_tree_fragmentation.materialize();
        let ghost flushing = actions@;
        let mut removed = self.one_ary_tree_fragmentation.rebalance();
        let ghost removing = removed@;
        proof {
            lemma_all_widened(before, capacity);
            lemma_all_flushed(all_widened(before), capacity);
            lemma_survivors(all_flushed(all_widened(before)), capacity);
            lemma_survivors(before, capacity);
            assert(self@.fragments == published_leaves(before));
            assert(file_names(self@.fragments) =~= file_names(survivors(before)));
            assert forall|i: int| 0 <= i < intervals.len() implies (
            #[trigger] intervals@[i]).writable() by {
                assert(survivors(before)[i].boundary.bounded());
            }
        }
        actions.append(&mut removed);
        let root = self.generate_root_node();
        let mut chaining = self.add_relation_to_nodes(&intervals);
        let ghost linking = chaining@;
        let report = create_report(self.one_ary_tree_fragmentation.fragments());
        actions.push(root);
        actions.append(&mut chaining);
        actions.push(report);
        proof {
            assert(actions@ =~= (((flushing + removing) + seq![root]) + linking) + seq![report]);
            lemma_views_concat(((flushing + removing) + seq![root]) + linking, seq![report]);
            lemma_views_concat((flushing + removing) + seq![root], linking);
            lemma_views_concat(flushing + removing, seq![root]);
            lemma_views_concat(flushing, removing);
            assert(action_outlines(seq![root]) =~= seq![root@.outline()]);
            assert(action_outlines(seq![report]) =~= seq![report@.outline()]);
        }
        actions
    }

    fn fragments(&self) -> (r: &Vec<Fragment>) {
        self.one_ary_tree_fragmentation.fragments()
    }

    fn max_size_cache(&self) -> (r: usize) {
        self.one_ary_tree_fragmentation.max_size_cache()
    }

    fn print_summary(&self) -> (r: Vec<String>) {
        self.one_ary_tree_fragmentation.print_summary()
    }
}

} // verus!
