//! The changes to the output directory that the library asks for.

use super::report::{entry_views, ReportEntry, ReportEntryView};
use crate::member::{Member, member_views, members_text, MemberView};
use crate::tree::{Relation, relation_views, RelationLink, RelationView};
use vstd::prelude::*;
use vstd::string::*;

verus! {

/// The serialisations of `relations`, one after the other.
pub open spec fn relations_text(relations: Seq<RelationView>) -> Seq<char>
    decreases relations.len(),
{
    if relations.len() == 0 {
        Seq::empty()
    } else {
        relations_text(relations.drop_last()) + relations.last().text()
    }
}

/// The serialisations of `relations`, each followed by an empty line.
pub open spec fn relations_listing(relations: Seq<RelationView>) -> Seq<char>
    decreases relations.len(),
{
    if relations.len() == 0 {
        Seq::empty()
    } else {
        relations_listing(relations.drop_last()) + relations.last().text() + seq!['\n']
    }
}

/// What a sequence of relation views says, apart from the identifiers.
pub open spec fn links_of(relations: Seq<RelationView>) -> Seq<RelationLink> {
    relations.map_values(|r: RelationView| r.link())
}

/// One change to the output directory. The library decides the changes; its
/// caller carries them out, in the order in which they are handed over.
#[derive(Debug, PartialEq, Eq)]
pub enum FileAction {
    /// Create the file, or empty it where it exists.
    Create { filename: String },
    /// Append the serialisations of the members to the file.
    AppendMembers { filename: String, members: Vec<Member> },
    /// Append the serialisations of the relations to the file.
    AppendRelations { filename: String, relations: Vec<Relation> },
    /// Replace the content of the file by the listing of the relations.
    WriteRelations { filename: String, relations: Vec<Relation> },
    /// Delete the file.
    Remove { filename: String },
    /// Replace the summary by these entries.
    WriteReport { filename: String, entries: Vec<ReportEntry> },
}

/// What a [`FileAction`] holds.
pub enum FileActionView {
    Create { filename: Seq<char> },
    AppendMembers { filename: Seq<char>, members: Seq<MemberView> },
    AppendRelations { filename: Seq<char>, relations: Seq<RelationView> },
    WriteRelations { filename: Seq<char>, relations: Seq<RelationView> },
    Remove { filename: Seq<char> },
    WriteReport { filename: Seq<char>, entries: Seq<ReportEntryView> },
}

/// A [`FileAction`] without the identifiers of its relations, which are drawn
/// at random.
pub enum ActionOutline {
    Create { filename: Seq<char> },
    AppendMembers { filename: Seq<char>, members: Seq<MemberView> },
    AppendRelations { filename: Seq<char>, relations: Seq<RelationLink> },
    WriteRelations { filename: Seq<char>, relations: Seq<RelationLink> },
    Remove { filename: Seq<char> },
    WriteReport { filename: Seq<char>, entries: Seq<ReportEntryView> },
}

impl FileActionView {
    /// The file that the action changes.
    pub open spec fn filename(self) -> Seq<char> {
        match self {
            FileActionView::Create { filename } => filename,
            FileActionView::AppendMembers { filename, .. } => filename,
            FileActionView::AppendRelations { filename, .. } => filename,
            FileActionView::WriteRelations { filename, .. } => filename,
            FileActionView::Remove { filename } => filename,
            FileActionView::WriteReport { filename, .. } => filename,
        }
    }

    /// The text that the action writes.
    pub open spec fn content(self) -> Option<Seq<char>> {
        match self {
            FileActionView::AppendMembers { members, .. } => Some(members_text(members)),
            FileActionView::AppendRelations { relations, .. } => Some(relations_text(relations)),
            FileActionView::WriteRelations { relations, .. } => Some(relations_listing(relations)),
            _ => None,
        }
    }

    /// The action without the identifiers of its relations.
    pub open spec fn outline(self) -> ActionOutline {
        match self {
            FileActionView::Create { filename } => ActionOutline::Create { filename },
            FileActionView::AppendMembers { filename, members } => ActionOutline::AppendMembers {
                filename,
                members,
            },
            FileActionView::AppendRelations {
                filename,
                relations,
            } => ActionOutline::AppendRelations { filename, relations: links_of(relations) },
            FileActionView::WriteRelations {
                filename,
                relations,
            } => ActionOutline::WriteRelations { filename, relations: links_of(relations) },
            FileActionView::Remove { filename } => ActionOutline::Remove { filename },
            FileActionView::WriteReport { filename, entries } => ActionOutline::WriteReport {
                filename,
                entries,
            },
        }
    }
}

impl View for FileAction {
    type V = FileActionView;

    open spec fn view(&self) -> FileActionView {
        match self {
            FileAction::Create { filename } => FileActionView::Create { filename: filename@ },
            FileAction::AppendMembers { filename, members } => FileActionView::AppendMembers {
                filename: filename@,
                members: member_views(members@),
            },
            FileAction::AppendRelations { filename, relations } => FileActionView::AppendRelations {
                filename: filename@,
                relations: relation_views(relations@),
            },
            FileAction::WriteRelations { filename, relations } => FileActionView::WriteRelations {
                filename: filename@,
                relations: relation_views(relations@),
            },
            FileAction::Remove { filename } => FileActionView::Remove { filename: filename@ },
            FileAction::WriteReport { filename, entries } => FileActionView::WriteReport {
                filename: filename@,
                entries: entry_views(entries@),
            },
        }
    }
}

/// The views of a sequence of actions.
pub open spec fn action_views(actions: Seq<FileAction>) -> Seq<FileActionView> {
    actions.map_values(|a: FileAction| a@)
}

/// The outlines of a sequence of action views.
pub open spec fn outlines_of(actions: Seq<FileActionView>) -> Seq<ActionOutline> {
    actions.map_values(|a: FileActionView| a.outline())
}

/// The outlines of a sequence of actions.
pub open spec fn action_outlines(actions: Seq<FileAction>) -> Seq<ActionOutline> {
    outlines_of(action_views(actions))
}

/// The outlines of two runs of actions, one after the other, are the outlines
/// of the first followed by those of the second.
pub proof fn lemma_outlines_concat(first: Seq<FileActionView>, second: Seq<FileActionView>)
    ensures
        outlines_of(first + second) == outlines_of(first) + outlines_of(second),
{
    assert(outlines_of(first + second) =~= outlines_of(first) + outlines_of(second));
}

/// The views of two runs of actions, one after the other, are the views of
/// the first followed by those of the second.
pub proof fn lemma_views_concat(first: Seq<FileAction>, second: Seq<FileAction>)
    ensures
        action_views(first + second) == action_views(first) + action_views(second),
        action_outlines(first + second) == action_outlines(first) + action_outlines(second),
{
    assert(action_views(first + second) =~= action_views(first) + action_views(second));
    lemma_outlines_concat(action_views(first), action_views(second));
}

/// Serialises a list of members, one after the other.
pub fn members_to_string(members: &Vec<Member>) -> (r: String)
    ensures
        r@ == members_text(member_views(members@)),
{
    let mut resp = String::new();
    let mut i: usize = 0;
    while i < members.len()
        invariant
            i <= members.len(),
            resp@ == members_text(member_views(members@).take(i as int)),
        decreases members.len() - i,
    {
        let ghost done = member_views(members@).take(i as int);
        let ghost next = member_views(members@).take(i + 1);
        let text = members[i].to_string();
        resp.append(text.as_str());
        proof {
            assert(next.drop_last() =~= done);
            assert(next.last() == members@[i as int]@);
        }
        i += 1;
    }
    assert(member_views(members@).take(i as int) =~= member_views(members@));
    resp
}

/// Serialises a list of relations, one after the other.
pub fn relations_to_text(relations: &Vec<Relation>) -> (r: String)
    ensures
        r@ == relations_text(relation_views(relations@)),
{
    let mut resp = String::new();
    let mut i: usize = 0;
    while i < relations.len()
        invariant
            i <= relations.len(),
            resp@ == relations_text(relation_views(relations@).take(i as int)),
        decreases relations.len() - i,
    {
        let ghost done = relation_views(relations@).take(i as int);
        let ghost next = relation_views(relations@).take(i + 1);
        let text = relations[i].to_string();
        resp.append(text.as_str());
        proof {
            assert(next.drop_last() =~= done);
            assert(next.last() == relations@[i as int]@);
        }
        i += 1;
    }
    assert(relation_views(relations@).take(i as int) =~= relation_views(relations@));
    resp
}

/// Serialises a list of relations, each followed by an empty line.
pub fn relations_to_string(relations: Vec<Relation>) -> (r: String)
    ensures
        r@ == relations_listing(relation_views(relations@)),
{
    let mut resp = String::new();
    let mut i: usize = 0;
    while i < relations.len()
        invariant
            i <= relations.len(),
            resp@ == relations_listing(relation_views(relations@).take(i as int)),
        decreases relations.len() - i,
    {
        let ghost done = relation_views(relations@).take(i as int);
        let ghost next = relation_views(relations@).take(i + 1);
        let text = relations[i].to_string();
        resp.append(text.as_str());
        resp.append("\n");
        proof {
            reveal_strlit("\n");
            assert(next.drop_last() =~= done);
            assert(next.last() == relations@[i as int]@);
            assert(resp@ =~= relations_listing(done) + next.last().text() + seq!['\n']);
        }
        i += 1;
    }
    assert(relation_views(relations@).take(i as int) =~= relation_views(relations@));
    resp
}

impl FileAction {
    /// The file that the action changes.
    pub fn filename(&self) -> (r: &String)
        ensures
            r@ == self@.filename(),
    {
        match self {
            FileAction::Create { filename } => filename,
            FileAction::AppendMembers { filename, .. } => filename,
            FileAction::AppendRelations { filename, .. } => filename,
            FileAction::WriteRelations { filename, .. } => filename,
            FileAction::Remove { filename } => filename,
            FileAction::WriteReport { filename, .. } => filename,
        }
    }

    /// The text that the action writes: the serialisations of its members or
    /// relations. Actions that create or delete a file, and the summary, have
    /// none.
    pub fn content(&self) -> (r: Option<String>)
        ensures
            crate::tree::option_view(r) == self@.content(),
    {
        match self {
            FileAction::AppendMembers { members, .. } => Some(members_to_string(members)),
            FileAction::AppendRelations { relations, .. } => Some(relations_to_text(relations)),
            FileAction::WriteRelations { relations, .. } => {
                let copy = clone_relations(relations);
                Some(relations_to_string(copy))
            },
            _ => None,
        }
    }
}

/// A copy of a list of relations.
pub fn clone_relations(relations: &Vec<Relation>) -> (r: Vec<Relation>)
    ensures
        relation_views(r@) == relation_views(relations@),
{
    let mut r: Vec<Relation> = Vec::with_capacity(relations.len());
    let mut i: usize = 0;
    while i < relations.len()
        invariant
            i <= relations.len(),
            r.len() == i,
            forall|k: int| 0 <= k < i ==> (#[trigger] r@[k])@ == relations@[k]@,
        decreases relations.len() - i,
    {
        r.push(relations[i].clone());
        i += 1;
    }
    assert(relation_views(r@) =~= relation_views(relations@));
    r
}

} // verus!
