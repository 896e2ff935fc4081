//! The choice among the strategies.

use super::action::{
    action_outlines, action_views, ActionOutline, FileAction, FileActionView, lemma_outlines_concat,
    outlines_of,
};
use super::fragment::{Fragment, FragmentView};
use super::linked_list_fragmentation::{
    LinkedListFragmentation, list_publication_outline, published_leaves,
};
use super::one_ary_tree_fragmentation::{
    construction_outline, first_row, OneAryTreeFragmentation, publication_outline, valid_range,
};
use super::tree::{is_tree_below, Tree, tree_outline};
use super::{
    all_flushed, covers_calendar, engine_wf, filed, files_at, filing_actions, flush_all_actions, Fragmentation,
    FragmentationError, FragmentationView, has_destination, is_destination, report_entries,
    report_name, survivors, total_size,
};
use crate::error::ErrorKind;
use crate::member::Member;
use vstd::prelude::*;
use vstd::string::*;

verus! {

/// The names of the strategies.
#[derive(Clone, Copy, Debug, PartialEq, Eq, Structural)]
pub enum FragmentationTypeName {
    OneAryTree,
    LinkedList,
    Tree,
}

impl FragmentationTypeName {
    /// The strategy that goes by that name, if any.
    pub open spec fn named(name: Seq<char>) -> Option<FragmentationTypeName> {
        if name == "oneAryTree"@ {
            Some(FragmentationTypeName::OneAryTree)
        } else if name == "linkedList"@ {
            Some(FragmentationTypeName::LinkedList)
        } else if name == "tree"@ {
            Some(FragmentationTypeName::Tree)
        } else {
            None
        }
    }

    /// Finds the strategy that goes by that name: `oneAryTree`, `linkedList`
    /// or `tree`. Any other name is refused.
    pub fn from_name(item: &String) -> (r: Result<Self, ErrorKind>)
        ensures
            match r {
                Ok(kind) => Self::named(item@) == Some(kind),
                Err(e) => Self::named(item@) is None && e == ErrorKind::CliInvalid,
            },
    {
        if *item == String::from_str("oneAryTree") {
            Ok(Self::OneAryTree)
        } else if *item == String::from_str("linkedList") {
            Ok(Self::LinkedList)
        } else if *item == String::from_str("tree") {
            Ok(Self::Tree)
        } else {
            Err(ErrorKind::CliInvalid)
        }
    }
}

/// A fragmentation of one of the three strategies.
#[derive(Debug)]
pub enum AnyFragmentation {
    OneAryTree(OneAryTreeFragmentation),
    LinkedList(LinkedListFragmentation),
    Tree(Tree),
}

impl View for AnyFragmentation {
    type V = FragmentationView;

    open spec fn view(&self) -> FragmentationView {
        match self {
            AnyFragmentation::OneAryTree(inner) => inner@,
            AnyFragmentation::LinkedList(inner) => inner@,
            AnyFragmentation::Tree(inner) => inner@,
        }
    }
}

impl AnyFragmentation {
    /// The strategy of the fragmentation.
    pub open spec fn kind(&self) -> FragmentationTypeName {
        match self {
            AnyFragmentation::OneAryTree(_) => FragmentationTypeName::OneAryTree,
            AnyFragmentation::LinkedList(_) => FragmentationTypeName::LinkedList,
            AnyFragmentation::Tree(_) => FragmentationTypeName::Tree,
        }
    }

    /// The strategy of the fragmentation.
    pub fn strategy(&self) -> (r: FragmentationTypeName)
        ensures
            r == self.kind(),
    {
        match self {
            AnyFragmentation::OneAryTree(_) => FragmentationTypeName::OneAryTree,
            AnyFragmentation::LinkedList(_) => FragmentationTypeName::LinkedList,
            AnyFragmentation::Tree(_) => FragmentationTypeName::Tree,
        }
    }
}

/// The fragments of a published fragmentation of that strategy: a one-ary
/// tree keeps the leaves with members; a linked list keeps them too, and
/// widens their intervals; a balanced tree keeps every fragment. All caches
/// are written out.
pub open spec fn published_fragments(
    kind: FragmentationTypeName,
    fragments: Seq<FragmentView>,
) -> Seq<FragmentView> {
    match kind {
        FragmentationTypeName::OneAryTree => survivors(all_flushed(fragments)),
        FragmentationTypeName::LinkedList => published_leaves(fragments),
        FragmentationTypeName::Tree => all_flushed(fragments),
    }
}

/// The actions that publish a fragmentation of that strategy, apart from the
/// identifiers of the relations.
pub open spec fn publishing_outline(
    kind: FragmentationTypeName,
    fragmentation: FragmentationView,
) -> Seq<ActionOutline> {
    match kind {
        FragmentationTypeName::OneAryTree => publication_outline(
            fragmentation.fragments,
            fragmentation.fragmentation_property,
            fragmentation.server_address,
        ),
        FragmentationTypeName::LinkedList => list_publication_outline(
            fragmentation.fragments,
            fragmentation.fragmentation_property,
            fragmentation.server_address,
        ),
        FragmentationTypeName::Tree => outlines_of(flush_all_actions(fragmentation.fragments))
            + seq![
            ActionOutline::WriteReport {
                filename: report_name(),
                entries: report_entries(all_flushed(fragmentation.fragments)),
            },
        ],
    }
}

impl Fragmentation for AnyFragmentation {
    open spec fn model(&self) -> FragmentationView {
        self@
    }

    /// Files a member as the strategy of the fragmentation does: a one-ary
    /// tree and a linked list with the first leaf whose interval holds its
    /// date, or with the first leaf of all; a balanced tree with one of the
    /// fragments whose interval holds its date.
    fn insert(&mut self, member: &Member) -> (r: Result<Vec<FileAction>, FragmentationError>)
        ensures
            final(self).kind() == old(self).kind(),
            match r {
                Ok(actions) => exists|pos: int|
                    {
                        &&& #[trigger] files_at(
                            old(self)@,
                            final(self)@,
                            action_views(actions@),
                            pos,
                            member@,
                        )
                        &&& old(self).kind() != FragmentationTypeName::Tree ==> is_destination(
                            old(self)@.fragments,
                            member.date,
                            pos,
                        )
                    },
                Err(FragmentationError::CacheFull) => old(self).kind()
                    == FragmentationTypeName::Tree ==> has_destination(
                    old(self)@.fragments,
                    member.date,
                ),
                Err(FragmentationError::NoDestination) => old(self).kind()
                    == FragmentationTypeName::Tree,
            },
    {
        let ghost before = self@;
        match self {
            AnyFragmentation::OneAryTree(inner) => {
                let r = inner.insert(member);
                proof {
                    if r is Ok {
                        let pos = choose|pos: int|
                            {
                                &&& is_destination(before.fragments, member.date, pos)
                                &&& inner@ == (FragmentationView {
                                    fragments: filed(before.fragments, pos, member@),
                                    ..before
                                })
                                &&& action_views(r->Ok_0@) == filing_actions(
                                    before.fragments,
                                    pos,
                                )
                            };
                        assert(files_at(before, inner@, action_views(r->Ok_0@), pos, member@));
                    }
                }
                r
            },
            AnyFragmentation::LinkedList(inner) => {
                let r = inner.insert(member);
                proof {
                    if r is Ok {
                        let pos = choose|pos: int|
                            {
                                &&& is_destination(before.fragments, member.date, pos)
                                &&& inner@ == (FragmentationView {
                                    fragments: filed(before.fragments, pos, member@),
                                    ..before
                                })
                                &&& action_views(r->Ok_0@) == filing_actions(
                                    before.fragments,
                                    pos,
                                )
                            };
                        assert(files_at(before, inner@, action_views(r->Ok_0@), pos, member@));
                    }
                }
                r
            },
            AnyFragmentation::Tree(inner) => inner.insert(member),
        }
    }

    /// Publishes the fragmentation as its strategy does.
    fn finalize(&mut self) -> (r: Vec<FileAction>)
        ensures
            final(self).kind() == old(self).kind(),
            final(self)@.fragments == published_fragments(old(self).kind(), old(self)@.fragments),
            action_outlines(r@) == publishing_outline(old(self).kind(), old(self)@),
    {
        match self {
            AnyFragmentation::OneAryTree(inner) => inner.finalize(),
            AnyFragmentation::LinkedList(inner) => inner.finalize(),
            AnyFragmentation::Tree(inner) => {
                let ghost before = inner@.fragments;
                let r = inner.finalize();
                proof {
                    let report = seq![
                        FileActionView::WriteReport {
                            filename: report_name(),
                            entries: report_entries(all_flushed(before)),
                        },
                    ];
                    lemma_outlines_concat(flush_all_actions(before), report);
                    assert(outlines_of(report) =~= seq![
                        ActionOutline::WriteReport {
                            filename: report_name(),
                            entries: report_entries(all_flushed(before)),
                        },
                    ]);
                }
                r
            },
        }
    }

    fn max_size_cache(&self) -> (r: usize) {
        match self {
            AnyFragmentation::OneAryTree(inner) => inner.max_size_cache(),
            AnyFragmentation::LinkedList(inner) => inner.max_size_cache(),
            AnyFragmentation::Tree(inner) => inner.max_size_cache(),
        }
    }

    fn fragments(&self) -> (r: &Vec<Fragment>) {
        match self {
            AnyFragmentation::OneAryTree(inner) => inner.fragments(),
            AnyFragmentation::LinkedList(inner) => inner.fragments(),
            AnyFragmentation::Tree(inner) => inner.fragments(),
        }
    }

    fn print_summary(&self) -> (r: Vec<String>) {
        match self {
            AnyFragmentation::OneAryTree(inner) => inner.print_summary(),
            AnyFragmentation::LinkedList(inner) => inner.print_summary(),
            AnyFragmentation::Tree(inner) => inner.print_summary(),
        }
    }
}

/// Makes a new fragmentation of the strategy that is asked for, with the
/// actions that lay its documents out. A balanced tree without a depth is
/// refused.
pub fn factory(
    fragmentation_type: FragmentationTypeName,
    n_fragments_first_row: usize,
    max_size_cache: usize,
    highest_date: i64,
    lowest_date: i64,
    server_address: String,
    fragmentation_property: String,
    dept: Option<usize>,
    tree_id: String,
) -> (r: Result<(AnyFragmentation, Vec<FileAction>), ErrorKind>)
    requires
        valid_range(n_fragments_first_row, highest_date, lowest_date),
    ensures
        r is Err <==> fragmentation_type == FragmentationTypeName::Tree && dept is None,
        match r {
            Ok((engine, actions)) => {
                &&& engine.kind() == fragmentation_type
                &&& engine_wf(engine@)
                &&& covers_calendar(engine@.fragments)
                &&& total_size(engine@.fragments) == 0
                &&& engine@.max_size_cache == max_size_cache
                &&& engine@.server_address == server_address@
                &&& engine@.fragmentation_property == fragmentation_property@
                &&& engine@.fragments.len() >= n_fragments_first_row
                &&& engine@.fragments.take(n_fragments_first_row as int) == first_row(
                    n_fragments_first_row,
                    max_size_cache,
                    highest_date,
                    lowest_date,
                )
                &&& match dept {
                    Some(depth) if fragmentation_type == FragmentationTypeName::Tree => {
                        &&& is_tree_below(
                            engine@.fragments.take(n_fragments_first_row as int),
                            engine@.fragments.skip(n_fragments_first_row as int),
                            depth as nat,
                        )
                        &&& action_outlines(actions@) == tree_outline(
                            engine@.fragments,
                            n_fragments_first_row,
                            depth,
                            fragmentation_property@,
                            server_address@,
                        )
                    },
                    _ => {
                        &&& engine@.fragments.len() == n_fragments_first_row
                        &&& action_outlines(actions@) == construction_outline(
                            engine@.fragments,
                            fragmentation_property@,
                            server_address@,
                        )
                    },
                }
            },
            Err(e) => e == ErrorKind::CliInvalid,
        },
{
    match fragmentation_type {
        FragmentationTypeName::LinkedList => {
            let (engine, actions) = LinkedListFragmentation::new(
                n_fragments_first_row,
                max_size_cache,
                highest_date,
                lowest_date,
                server_address,
                fragmentation_property,
                tree_id,
            );
            proof {
                assert(engine@.fragments.take(n_fragments_first_row as int) =~= engine@.fragments);
                super::one_ary_tree_fragmentation::lemma_first_row_is_new(
                    n_fragments_first_row,
                    max_size_cache,
                    highest_date,
                    lowest_date,
                );
            }
            Ok((AnyFragmentation::LinkedList(engine), actions))
        },
        FragmentationTypeName::OneAryTree => {
            let (engine, actions) = OneAryTreeFragmentation::new(
                n_fragments_first_row,
                max_size_cache,
                highest_date,
                lowest_date,
                server_address,
                fragmentation_property,
                tree_id,
            );
            proof {
                assert(engine@.fragments.take(n_fragments_first_row as int) =~= engine@.fragments);
                super::one_ary_tree_fragmentation::lemma_first_row_is_new(
                    n_fragments_first_row,
                    max_size_cache,
                    highest_date,
                    lowest_date,
                );
            }
            Ok((AnyFragmentation::OneAryTree(engine), actions))
        },
        FragmentationTypeName::Tree => {
            match dept {
                Some(depth) => {
                    let (engine, actions) = Tree::new(
                        n_fragments_first_row,
                        max_size_cache,
                        highest_date,
                        lowest_date,
                        server_address,
                        fragmentation_property,
                        depth,
                    );
                    proof {
                        super::tree::lemma_all_new(engine@.fragments, max_size_cache);
                    }
                    Ok((AnyFragmentation::Tree(engine), actions))
                },
                None => Err(ErrorKind::CliInvalid),
            }
        },
    }
}

} // verus!
