//! A fragment: one time bucket with its cache of members and its file.

use super::action::{
    action_outlines, action_views, ActionOutline, FileAction, FileActionView, lemma_outlines_concat,
    links_of, outlines_of,
};
use crate::member::{clone_members, Member, member_views, MemberView};
use crate::text::join;
use crate::time::{
    date_time_format, displayed_date_time, format_timestamp, formatted_date_time, in_calendar,
    max_time, MAX_TIME, MIN_TIME, min_time, nearest_date, show_date,
};
use crate::tree::{Relation, relation_links, RelationLink, RelationOperator, RelationView};
use vstd::prelude::*;
use vstd::string::*;

verus! {

/// Draws a version 4 identifier from `uuid::Uuid::new_v4` and writes it out.
/// Nothing is claimed of the text: it is random.
#[verifier::external_body]
pub(crate) fn fresh_identifier() -> (r: String) {
    uuid::Uuid::new_v4().to_string()
}

/// The inclusive interval of dates that a fragment accepts.
#[derive(Debug, Clone, Copy, PartialEq, Eq, Structural)]
pub struct Boundary {
    pub upper: i64,
    pub lower: i64,
}

/// The relation that states one bound of a fragment, identifier included.
pub open spec fn bound_relation(
    time_value: i64,
    fragmentation_property: Seq<char>,
    server_address: Seq<char>,
    destination_id: Seq<char>,
    current_id: Seq<char>,
    relation_type: RelationOperator,
    relation_id: Seq<char>,
) -> RelationView {
    RelationView {
        path: Some(fragmentation_property),
        value: Some(formatted_date_time(time_value, date_time_format())),
        node: server_address + destination_id,
        relation_type: Some(relation_type),
        current_node_iri: server_address + current_id,
        relation_id,
    }
}

/// What the relation that states one bound of a fragment says.
pub open spec fn bound_link(
    time_value: i64,
    fragmentation_property: Seq<char>,
    server_address: Seq<char>,
    destination_id: Seq<char>,
    current_id: Seq<char>,
    relation_type: RelationOperator,
) -> RelationLink {
    RelationLink {
        path: Some(fragmentation_property),
        value: Some(formatted_date_time(time_value, date_time_format())),
        node: server_address + destination_id,
        relation_type: Some(relation_type),
        current_node_iri: server_address + current_id,
    }
}

impl Boundary {
    /// `date` lies inside the interval, ends included.
    pub open spec fn contains(self, date: i64) -> bool {
        self.lower <= date <= self.upper
    }

    /// The lower end does not lie above the upper end.
    pub open spec fn ordered(self) -> bool {
        self.lower <= self.upper
    }

    /// The interval is ordered and lies within the calendar.
    pub open spec fn bounded(self) -> bool {
        MIN_TIME <= self.lower <= self.upper <= MAX_TIME
    }

    /// The interval as it is shown to a reader: the upper end, then the lower.
    pub open spec fn text(self) -> Seq<char> {
        seq!['['] + displayed_date_time(nearest_date(self.upper)) + seq![',', ' ']
            + displayed_date_time(nearest_date(self.lower)) + seq![']']
    }

    /// Each end that a relation would state is a date of the calendar.
    pub open spec fn writable(self) -> bool {
        &&& self.upper < MAX_TIME ==> MIN_TIME <= self.upper
        &&& self.lower > MIN_TIME ==> self.lower <= MAX_TIME
    }

    /// The middle of the interval, rounded towards the lower end.
    pub open spec fn mid(self) -> i64 {
        (self.lower + (self.upper - self.lower) / 2) as i64
    }

    /// What the relations from `current_id` to `destination_id` say of the
    /// interval: that the members lie below the upper end, unless it is open,
    /// and at or above the lower end, unless it is open.
    pub open spec fn links(
        self,
        current_id: Seq<char>,
        destination_id: Seq<char>,
        fragmentation_property: Seq<char>,
        server_address: Seq<char>,
    ) -> Seq<RelationLink> {
        let below = if self.upper < MAX_TIME {
            seq![
                bound_link(
                    self.upper,
                    fragmentation_property,
                    server_address,
                    destination_id,
                    current_id,
                    RelationOperator::LessThanRelation,
                ),
            ]
        } else {
            Seq::empty()
        };
        let above = if self.lower > MIN_TIME {
            seq![
                bound_link(
                    self.lower,
                    fragmentation_property,
                    server_address,
                    destination_id,
                    current_id,
                    RelationOperator::GreaterThanOrEqualToRelation,
                ),
            ]
        } else {
            Seq::empty()
        };
        below + above
    }

    /// Shows the interval to a reader: the upper end, then the lower.
    pub fn to_string(&self) -> (r: String)
        ensures
            r@ == self.text(),
    {
        let mut r = String::from_str("[");
        r.append(show_date(self.upper).as_str());
        r.append(", ");
        r.append(show_date(self.lower).as_str());
        r.append("]");
        proof {
            reveal_strlit("[");
            reveal_strlit(", ");
            reveal_strlit("]");
            assert(r@ =~= self.text());
        }
        r
    }

    /// Tells whether `date` lies inside the interval, ends included.
    pub fn is_in_between(&self, date: i64) -> (r: bool)
        ensures
            r == self.contains(date),
    {
        date >= self.lower && date <= self.upper
    }

    /// Computes the middle of an ordered interval.
    pub fn middle(&self) -> (r: i64)
        requires
            self.ordered(),
        ensures
            r == self.mid(),
            self.lower <= r <= self.upper,
    {
        let lower: i128 = self.lower as i128;
        let upper: i128 = self.upper as i128;
        let mid: i128 = lower + (upper - lower) / 2;
        mid as i64
    }

    /// The relations from `current_id` to `destination_id` that state the
    /// closed ends of the interval, each under a fresh identifier.
    pub fn to_relation(
        &self,
        current_id: &String,
        destination_id: &String,
        fragmentation_property: &String,
        server_address: &String,
    ) -> (r: Vec<Relation>)
        requires
            self.writable(),
        ensures
            relation_links(r@) == self.links(
                current_id@,
                destination_id@,
                fragmentation_property@,
                server_address@,
            ),
    {
        let mut resp: Vec<Relation> = Vec::new();
        if self.upper < max_time() {
            resp.push(
                Self::create_relation(
                    self.upper,
                    fragmentation_property,
                    server_address,
                    destination_id,
                    current_id,
                    RelationOperator::LessThanRelation,
                    fresh_identifier(),
                ),
            );
        }
        if self.lower > min_time() {
            resp.push(
                Self::create_relation(
                    self.lower,
                    fragmentation_property,
                    server_address,
                    destination_id,
                    current_id,
                    RelationOperator::GreaterThanOrEqualToRelation,
                    fresh_identifier(),
                ),
            );
        }
        assert(relation_links(resp@) =~= self.links(
            current_id@,
            destination_id@,
            fragmentation_property@,
            server_address@,
        ));
        resp
    }

    /// The relation from `current_id` to `destination_id` that compares the
    /// fragmentation property with `time_value`, under the given identifier.
    pub fn create_relation(
        time_value: i64,
        fragmentation_property: &String,
        server_address: &String,
        destination_id: &String,
        current_id: &String,
        relation_type: RelationOperator,
        relation_id: String,
    ) -> (r: Relation)
        requires
            in_calendar(time_value as int),
        ensures
            r@ == bound_relation(
                time_value,
                fragmentation_property@,
                server_address@,
                destination_id@,
                current_id@,
                relation_type,
                relation_id@,
            ),
    {
        Relation::new(
            Some(fragmentation_property.clone()),
            Some(format_timestamp(time_value, "%Y-%m-%dT%H:%M:%S.%f")),
            join(server_address.as_str(), destination_id.as_str()),
            Some(relation_type),
            join(server_address.as_str(), current_id.as_str()),
            relation_id,
        )
    }
}

impl Default for Boundary {
    fn default() -> (r: Self)
        ensures
            r.upper == i64::MAX,
            r.lower == i64::MIN,
    {
        Self { upper: i64::MAX, lower: i64::MIN }
    }
}

/// One time bucket: the file that holds its members, the interval of dates
/// that it accepts, and the members that wait to be written.
#[derive(Debug, PartialEq, Eq)]
pub struct Fragment {
    filename: String,
    boundary: Boundary,
    members_to_materialized: Vec<Member>,
    max_size_cache: usize,
    size: usize,
}

/// What a [`Fragment`] holds.
pub struct FragmentView {
    /// The name of the fragment's file.
    pub filename: Seq<char>,
    /// The interval of dates that the fragment accepts.
    pub boundary: Boundary,
    /// The members that wait to be written, in the order of their arrival.
    pub cache: Seq<MemberView>,
    /// The capacity that the cache was made with.
    pub max_size_cache: usize,
    /// The number of members that the fragment ever accepted.
    pub size: usize,
}

impl FragmentView {
    /// The cache is empty or lies below its capacity, and it holds no more
    /// members than the fragment ever accepted.
    pub open spec fn wf(self) -> bool {
        &&& self.cache.len() == 0 || self.cache.len() < self.max_size_cache
        &&& self.cache.len() <= self.size
    }

    /// The cache has no room for one more member.
    pub open spec fn is_full(self) -> bool {
        self.cache.len() + 1 >= self.max_size_cache
    }

    /// The fragment once its cache is written out.
    pub open spec fn flushed(self) -> FragmentView {
        FragmentView { cache: Seq::empty(), ..self }
    }

    /// The fragment with one more member in its cache.
    pub open spec fn with_member(self, member: MemberView) -> FragmentView {
        FragmentView { cache: self.cache.push(member), size: (self.size + 1) as usize, ..self }
    }

    /// The fragment with an interval that accepts every date.
    pub open spec fn widened(self) -> FragmentView {
        FragmentView { boundary: Boundary { upper: MAX_TIME, lower: MIN_TIME }, ..self }
    }

    /// The actions that write the cache out: one, or none where it is empty.
    pub open spec fn flush_actions(self) -> Seq<FileActionView> {
        if self.cache.len() > 0 {
            seq![FileActionView::AppendMembers { filename: self.filename, members: self.cache }]
        } else {
            Seq::empty()
        }
    }

    /// A new fragment without members.
    pub open spec fn fresh(
        filename: Seq<char>,
        max_size_cache: usize,
        lower: i64,
        upper: i64,
    ) -> FragmentView {
        FragmentView {
            filename,
            boundary: Boundary { upper, lower },
            cache: Seq::empty(),
            max_size_cache,
            size: 0,
        }
    }

    /// The two relations that a split fragment holds: the members of the left
    /// half lie below the middle, those of the right half at or above it.
    pub open spec fn split_relations(
        self,
        fragmentation_property: Seq<char>,
        server_address: Seq<char>,
        left_name: Seq<char>,
        right_name: Seq<char>,
        left_id: Seq<char>,
        right_id: Seq<char>,
    ) -> Seq<RelationView> {
        seq![
            bound_relation(
                self.boundary.mid(),
                fragmentation_property,
                server_address,
                left_name,
                self.filename,
                RelationOperator::LessThanRelation,
                left_id,
            ),
            bound_relation(
                self.boundary.mid(),
                fragmentation_property,
                server_address,
                right_name,
                self.filename,
                RelationOperator::GreaterThanOrEqualToRelation,
                right_id,
            ),
        ]
    }

    /// The actions of a split: the cache is written out, the files of the two
    /// halves are created, and the relations to them are appended to the
    /// fragment's own file.
    pub open spec fn split_actions(
        self,
        fragmentation_property: Seq<char>,
        server_address: Seq<char>,
        left_name: Seq<char>,
        right_name: Seq<char>,
        left_id: Seq<char>,
        right_id: Seq<char>,
    ) -> Seq<FileActionView> {
        self.flush_actions() + seq![
            FileActionView::Create { filename: left_name },
            FileActionView::Create { filename: right_name },
            FileActionView::AppendRelations {
                filename: self.filename,
                relations: self.split_relations(
                    fragmentation_property,
                    server_address,
                    left_name,
                    right_name,
                    left_id,
                    right_id,
                ),
            },
        ]
    }

    /// What the actions of a split say, apart from the identifiers of the
    /// two relations.
    pub open spec fn split_outline(
        self,
        fragmentation_property: Seq<char>,
        server_address: Seq<char>,
        left_name: Seq<char>,
        right_name: Seq<char>,
    ) -> Seq<ActionOutline> {
        outlines_of(self.flush_actions()) + seq![
            ActionOutline::Create { filename: left_name },
            ActionOutline::Create { filename: right_name },
            ActionOutline::AppendRelations {
                filename: self.filename,
                relations: seq![
                    bound_link(
                        self.boundary.mid(),
                        fragmentation_property,
                        server_address,
                        left_name,
                        self.filename,
                        RelationOperator::LessThanRelation,
                    ),
                    bound_link(
                        self.boundary.mid(),
                        fragmentation_property,
                        server_address,
                        right_name,
                        self.filename,
                        RelationOperator::GreaterThanOrEqualToRelation,
                    ),
                ],
            },
        ]
    }

    /// The left half of a split: from the lower end to the middle.
    pub open spec fn left_half(self, filename: Seq<char>) -> FragmentView {
        FragmentView::fresh(filename, self.max_size_cache, self.boundary.lower, self.boundary.mid())
    }

    /// The right half of a split: from the middle to the upper end.
    pub open spec fn right_half(self, filename: Seq<char>) -> FragmentView {
        FragmentView::fresh(filename, self.max_size_cache, self.boundary.mid(), self.boundary.upper)
    }
}

/// The name ends in `.ttl`.
pub open spec fn is_turtle_name(name: Seq<char>) -> bool {
    name.len() >= 4 && name.subrange(name.len() - 4, name.len() as int) == ".ttl"@
}

/// The cache of a fragment never exceeds the capacity that it was made with,
/// nor the number of members that the fragment ever accepted.
pub proof fn lemma_cache_bound(fragment: FragmentView)
    requires
        fragment.wf(),
    ensures
        fragment.cache.len() <= fragment.max_size_cache,
        fragment.cache.len() <= fragment.size,
{
}

impl View for Fragment {
    type V = FragmentView;

    closed spec fn view(&self) -> FragmentView {
        FragmentView {
            filename: self.filename@,
            boundary: self.boundary,
            cache: member_views(self.members_to_materialized@),
            max_size_cache: self.max_size_cache,
            size: self.size,
        }
    }
}

impl Clone for Fragment {
    fn clone(&self) -> (r: Self)
        ensures
            r@ == self@,
    {
        Fragment {
            filename: self.filename.clone(),
            boundary: self.boundary,
            members_to_materialized: clone_members(&self.members_to_materialized),
            max_size_cache: self.max_size_cache,
            size: self.size,
        }
    }
}

impl Fragment {
    /// The cache is empty or lies below its capacity, and it holds no more
    /// members than the fragment ever accepted.
    pub open spec fn wf(&self) -> bool {
        self@.wf()
    }

    /// A new fragment without members, and the action that creates its file.
    pub fn new(filename: String, max_size_cache: usize, lower_bound: i64, upper_bound: i64) -> (r: (
        Self,
        FileAction,
    ))
        ensures
            r.0@ == FragmentView::fresh(filename@, max_size_cache, lower_bound, upper_bound),
            r.0.wf(),
            r.1@ == (FileActionView::Create { filename: filename@ }),
    {
        let action = FileAction::Create { filename: filename.clone() };
        let fragment = Fragment {
            filename,
            boundary: Boundary { lower: lower_bound, upper: upper_bound },
            members_to_materialized: Vec::with_capacity(max_size_cache),
            max_size_cache,
            size: 0,
        };
        assert(fragment@.cache =~= Seq::empty());
        (fragment, action)
    }

    /// The interval of dates that the fragment accepts.
    pub fn boundary(&self) -> (r: &Boundary)
        ensures
            *r == self@.boundary,
    {
        &self.boundary
    }

    /// The number of members that the fragment ever accepted: those that
    /// wait in the cache and those that were written.
    pub fn size(&self) -> (r: usize)
        ensures
            r == self@.size,
            self.wf() ==> r >= self@.cache.len(),
    {
        self.size
    }

    /// The name of the fragment's file.
    pub fn filename(&self) -> (r: &String)
        ensures
            r@ == self@.filename,
    {
        &self.filename
    }

    /// Shows the fragment to a reader: the name of its file.
    pub fn to_string(&self) -> (r: String)
        ensures
            r@ == self@.filename,
    {
        self.filename.clone()
    }

    /// The capacity that the cache was made with.
    pub fn max_size_cache(&self) -> (r: usize)
        ensures
            r == self@.max_size_cache,
    {
        self.max_size_cache
    }

    /// The number of members that wait to be written.
    pub fn cache_len(&self) -> (r: usize)
        ensures
            r == self@.cache.len(),
    {
        self.members_to_materialized.len()
    }

    /// The action that appends the relations to the fragment's file.
    pub fn materialize_relation(&self, relations: Vec<Relation>) -> (r: FileAction)
        ensures
            r@ == (FileActionView::AppendRelations {
                filename: self@.filename,
                relations: crate::tree::relation_views(relations@),
            }),
    {
        FileAction::AppendRelations { filename: self.filename.clone(), relations }
    }

    /// Empties the cache. Where it held members, the action that appends them
    /// to the fragment's file is returned.
    pub fn materialize(&mut self) -> (r: Option<FileAction>)
        ensures
            final(self)@ == old(self)@.flushed(),
            final(self).wf(),
            match r {
                Some(action) => seq![action@] == old(self)@.flush_actions(),
                None => old(self)@.flush_actions() == Seq::<FileActionView>::empty(),
            },
    {
        if self.members_to_materialized.len() > 0 {
            let mut members: Vec<Member> = Vec::new();
            core::mem::swap(&mut self.members_to_materialized, &mut members);
            assert(self@.cache =~= Seq::empty());
            Some(FileAction::AppendMembers { filename: self.filename.clone(), members })
        } else {
            assert(self@.cache =~= Seq::empty());
            None
        }
    }

    /// The action that deletes the fragment's file.
    pub fn clear_file(&self) -> (r: FileAction)
        ensures
            r@ == (FileActionView::Remove { filename: self@.filename }),
    {
        FileAction::Remove { filename: self.filename.clone() }
    }

    /// The number of members that the fragment ever accepted.
    pub fn len(&self) -> (r: usize)
        ensures
            r == self@.size,
            self.wf() ==> r >= self@.cache.len(),
    {
        self.size
    }

    /// Takes a copy of the member into the cache, unless the cache is full:
    /// then nothing changes, and the caller has to write the cache out first.
    pub fn insert(&mut self, member: &Member) -> (r: Result<(), &'static str>)
        requires
            old(self).wf(),
            old(self)@.size < usize::MAX,
        ensures
            final(self).wf(),
            match r {
                Ok(_) => !old(self)@.is_full() && final(self)@ == old(self)@.with_member(member@),
                Err(message) => old(self)@.is_full() && final(self)@ == old(self)@ && message@
                    == "the member cache is full it has to be materialized"@,
            },
    {
        let cached = self.members_to_materialized.len();
        if self.max_size_cache <= 1 || cached >= self.max_size_cache - 1 {
            return Err("the member cache is full it has to be materialized");
        }
        self.size += 1;
        self.members_to_materialized.push(member.clone());
        assert(self@.cache =~= old(self)@.cache.push(member@));
        Ok(())
    }

    /// Widens the interval so that it accepts every date.
    pub fn up_boundary_infinity(&mut self)
        ensures
            final(self)@ == old(self)@.widened(),
    {
        self.boundary = Boundary { upper: max_time(), lower: min_time() };
    }

    /// Splits the fragment at the middle of its interval into two new
    /// fragments, whose files and relations carry the given names and
    /// identifiers. The fragment's cache is written out first.
    pub fn split_into(
        &mut self,
        fragmentation_property: &String,
        server_address: &String,
        left_name: String,
        right_name: String,
        left_id: String,
        right_id: String,
    ) -> (r: (Fragment, Fragment, Vec<FileAction>))
        requires
            old(self)@.boundary.ordered(),
            in_calendar(old(self)@.boundary.mid() as int),
        ensures
            final(self)@ == old(self)@.flushed(),
            r.0@ == old(self)@.left_half(left_name@),
            r.1@ == old(self)@.right_half(right_name@),
            r.0.wf(),
            r.1.wf(),
            super::action::action_views(r.2@) == old(self)@.split_actions(
                fragmentation_property@,
                server_address@,
                left_name@,
                right_name@,
                left_id@,
                right_id@,
            ),
    {
        let mut actions: Vec<FileAction> = Vec::new();
        match self.materialize() {
            Some(action) => {
                actions.push(action);
            },
            None => {},
        }
        assert(super::action::action_views(actions@) =~= old(self)@.flush_actions());
        let ghost flushing = actions@;
        let mid_bound = self.boundary.middle();
        let relation_1 = Boundary::create_relation(
            mid_bound,
            fragmentation_property,
            server_address,
            &left_name,
            &self.filename,
            RelationOperator::LessThanRelation,
            left_id,
        );
        let relation_2 = Boundary::create_relation(
            mid_bound,
            fragmentation_property,
            server_address,
            &right_name,
            &self.filename,
            RelationOperator::GreaterThanOrEqualToRelation,
            right_id,
        );
        let (fragment_1, create_1) = Fragment::new(
            left_name,
            self.max_size_cache,
            self.boundary.lower,
            mid_bound,
        );
        let (fragment_2, create_2) = Fragment::new(
            right_name,
            self.max_size_cache,
            mid_bound,
            self.boundary.upper,
        );
        let mut relations: Vec<Relation> = Vec::new();
        relations.push(relation_1);
        relations.push(relation_2);
        assert(crate::tree::relation_views(relations@) =~= old(self)@.split_relations(
            fragmentation_property@,
            server_address@,
            left_name@,
            right_name@,
            left_id@,
            right_id@,
        ));
        let append = self.materialize_relation(relations);
        actions.push(create_1);
        actions.push(create_2);
        actions.push(append);
        assert(super::action::action_views(actions@) =~= super::action::action_views(flushing)
            + seq![create_1@, create_2@, append@]);
        (fragment_1, fragment_2, actions)
    }

    /// Splits the fragment at the middle of its interval into two new
    /// fragments with freshly named files. The fragment's cache is written
    /// out, the two files are created, and the fragment's own file receives
    /// the relations to the halves: below the middle to the left, at or above
    /// it to the right.
    pub fn create_two_sub_fragment(
        &mut self,
        fragmentation_property: &String,
        server_address: &String,
    ) -> (r: (Fragment, Fragment, Vec<FileAction>))
        requires
            old(self)@.boundary.ordered(),
            in_calendar(old(self)@.boundary.mid() as int),
        ensures
            final(self)@ == old(self)@.flushed(),
            r.0@ == old(self)@.left_half(r.0@.filename),
            r.1@ == old(self)@.right_half(r.1@.filename),
            r.0.wf(),
            r.1.wf(),
            is_turtle_name(r.0@.filename),
            is_turtle_name(r.1@.filename),
            action_outlines(r.2@) == old(self)@.split_outline(
                fragmentation_property@,
                server_address@,
                r.0@.filename,
                r.1@.filename,
            ),
    {
        let left_name = join(fresh_identifier().as_str(), ".ttl");
        let right_name = join(fresh_identifier().as_str(), ".ttl");
        let left_id = fresh_identifier();
        let right_id = fresh_identifier();
        proof {
            reveal_strlit(".ttl");
            assert(left_name@.subrange(left_name@.len() - 4, left_name@.len() as int) =~= ".ttl"@);
            assert(right_name@.subrange(right_name@.len() - 4, right_name@.len() as int) =~= ".ttl"@);
        }
        let ghost before = self@;
        let r = self.split_into(
            fragmentation_property,
            server_address,
            left_name,
            right_name,
            left_id,
            right_id,
        );
        proof {
            let tail = seq![
                FileActionView::Create { filename: left_name@ },
                FileActionView::Create { filename: right_name@ },
                FileActionView::AppendRelations {
                    filename: before.filename,
                    relations: before.split_relations(
                        fragmentation_property@,
                        server_address@,
                        left_name@,
                        right_name@,
                        left_id@,
                        right_id@,
                    ),
                },
            ];
            lemma_outlines_concat(before.flush_actions(), tail);
            assert(links_of(
                before.split_relations(
                    fragmentation_property@,
                    server_address@,
                    left_name@,
                    right_name@,
                    left_id@,
                    right_id@,
                ),
            ) =~= seq![
                bound_link(
                    before.boundary.mid(),
                    fragmentation_property@,
                    server_address@,
                    left_name@,
                    before.filename,
                    RelationOperator::LessThanRelation,
                ),
                bound_link(
                    before.boundary.mid(),
                    fragmentation_property@,
                    server_address@,
                    right_name@,
                    before.filename,
                    RelationOperator::GreaterThanOrEqualToRelation,
                ),
            ]);
            assert(outlines_of(tail) =~= seq![
                ActionOutline::Create { filename: left_name@ },
                ActionOutline::Create { filename: right_name@ },
                tail[2].outline(),
            ]);
        }
        r
    }
}

/// The views of a sequence of fragments.
pub open spec fn fragment_views(fragments: Seq<Fragment>) -> Seq<FragmentView> {
    fragments.map_values(|f: Fragment| f@)
}

/// A copy of a list of fragments.
pub fn clone_fragments(fragments: &Vec<Fragment>) -> (r: Vec<Fragment>)
    ensures
        fragment_views(r@) == fragment_views(fragments@),
{
    let mut r: Vec<Fragment> = Vec::with_capacity(fragments.len());
    let mut i: usize = 0;
    while i < fragments.len()
        invariant
            i <= fragments.len(),
            r.len() == i,
            forall|k: int| 0 <= k < i ==> (#[trigger] r@[k])@ == fragments@[k]@,
        decreases fragments.len() - i,
    {
        r.push(fragments[i].clone());
        i += 1;
    }
    assert(fragment_views(r@) =~= fragment_views(fragments@));
    r
}

} // verus!
