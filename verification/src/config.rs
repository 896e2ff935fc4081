//! The configuration of a run, and the schema that completes a member.

use vstd::prelude::*;
use vstd::string::*;

verus! {

/// A descriptor for a subject in the context of a triple.
#[derive(Debug, PartialEq, Eq)]
pub enum SubjectDescriptor {
    /// The subject is the member.
    MemberSubject,
    /// The subject is one of the subjects linked to the member, which
    /// describe a property or subproperty of it.
    LinkedSubject { subject: String },
}

/// What a [`SubjectDescriptor`] holds.
pub enum SubjectDescriptorView {
    MemberSubject,
    LinkedSubject { subject: Seq<char> },
}

impl View for SubjectDescriptor {
    type V = SubjectDescriptorView;

    open spec fn view(&self) -> SubjectDescriptorView {
        match self {
            SubjectDescriptor::MemberSubject => SubjectDescriptorView::MemberSubject,
            SubjectDescriptor::LinkedSubject { subject } => SubjectDescriptorView::LinkedSubject {
                subject: subject@,
            },
        }
    }
}

impl Clone for SubjectDescriptor {
    fn clone(&self) -> (r: Self)
        ensures
            r@ == self@,
    {
        match self {
            SubjectDescriptor::MemberSubject => SubjectDescriptor::MemberSubject,
            SubjectDescriptor::LinkedSubject { subject } => SubjectDescriptor::LinkedSubject {
                subject: subject.clone(),
            },
        }
    }
}

/// The schema of a triple pattern associated with a member.
#[derive(Debug, PartialEq, Eq)]
pub struct Schema {
    pub subject: SubjectDescriptor,
    pub predicate: String,
    pub object: Option<SubjectDescriptor>,
}

/// What a [`Schema`] holds.
pub struct SchemaView {
    pub subject: SubjectDescriptorView,
    pub predicate: Seq<char>,
    pub object: Option<SubjectDescriptorView>,
}

impl SchemaView {
    /// A triple with that subject and predicate satisfies the rule: its
    /// subject is the member, or one of the subjects linked to the member, as
    /// the rule asks; and its predicate is the rule's.
    pub open spec fn accepts(
        self,
        subject: Seq<char>,
        predicate: Seq<char>,
        member_id: Seq<char>,
        related_subject: Seq<Seq<char>>,
    ) -> bool {
        &&& match self.subject {
            SubjectDescriptorView::MemberSubject => subject == member_id,
            SubjectDescriptorView::LinkedSubject { .. } => related_subject.contains(subject),
        }
        &&& self.predicate == predicate
    }
}

impl View for Schema {
    type V = SchemaView;

    open spec fn view(&self) -> SchemaView {
        SchemaView {
            subject: self.subject@,
            predicate: self.predicate@,
            object: match self.object {
                Some(o) => Some(o@),
                None => None,
            },
        }
    }
}

impl Clone for Schema {
    fn clone(&self) -> (r: Self)
        ensures
            r@ == self@,
    {
        Schema {
            subject: self.subject.clone(),
            predicate: self.predicate.clone(),
            object: match &self.object {
                Some(o) => Some(o.clone()),
                None => None,
            },
        }
    }
}

/// What a rule is held against: a triple, the member under construction and
/// the subjects linked to it.
#[derive(Debug, PartialEq, Eq)]
pub struct SchemaValidatorInput {
    /// The subject of the triple.
    pub subject: String,
    /// The predicate of the triple.
    pub predicate: String,
    /// The object of the triple.
    pub object: String,
    /// The subject that identifies the member under construction.
    pub member_id: String,
    /// The subjects linked to the member. What counts is which subjects are
    /// among them, not their order nor how often one occurs.
    pub related_subject: Vec<String>,
}

/// Tells whether `wanted` is among `texts`.
pub fn contains_text(texts: &Vec<String>, wanted: &String) -> (r: bool)
    ensures
        r == crate::member::text_views(texts@).contains(wanted@),
{
    let ghost views = crate::member::text_views(texts@);
    let mut i: usize = 0;
    while i < texts.len()
        invariant
            i <= texts.len(),
            views == crate::member::text_views(texts@),
            forall|k: int| 0 <= k < i ==> #[trigger] views[k] != wanted@,
        decreases texts.len() - i,
    {
        if texts[i] == *wanted {
            assert(views[i as int] == wanted@);
            return true;
        }
        i += 1;
    }
    false
}

impl Schema {
    /// Checks whether a triple is valid with the schema.
    pub fn is_valid(&self, input: &SchemaValidatorInput) -> (r: bool)
        ensures
            r == self@.accepts(
                input.subject@,
                input.predicate@,
                input.member_id@,
                crate::member::text_views(input.related_subject@),
            ),
    {
        match &self.subject {
            SubjectDescriptor::MemberSubject => {
                if input.subject != input.member_id {
                    return false;
                }
            },
            SubjectDescriptor::LinkedSubject { .. } => {
                if !contains_text(&input.related_subject, &input.subject) {
                    return false;
                }
            },
        };
        if self.predicate != input.predicate {
            return false;
        }
        true
    }
}

/// The views of a sequence of rules.
pub open spec fn schema_views(schema: Seq<Schema>) -> Seq<SchemaView> {
    schema.map_values(|s: Schema| s@)
}

/// A copy of a list of rules.
pub fn clone_schema(schema: &Vec<Schema>) -> (r: Vec<Schema>)
    ensures
        schema_views(r@) == schema_views(schema@),
{
    let mut r: Vec<Schema> = Vec::with_capacity(schema.len());
    let mut i: usize = 0;
    while i < schema.len()
        invariant
            i <= schema.len(),
            r.len() == i,
            forall|k: int| 0 <= k < i ==> (#[trigger] r@[k])@ == schema@[k]@,
        decreases schema.len() - i,
    {
        r.push(schema[i].clone());
        i += 1;
    }
    assert(schema_views(r@) =~= schema_views(schema@));
    r
}

/// The configuration of a run.
#[derive(Debug, PartialEq, Eq)]
pub struct Config {
    /// A regular expression that the subject of a member must match.
    pub member_url_regex: String,
    /// The rules that a member has to satisfy to be complete.
    pub schema: Vec<Schema>,
    /// The number of members that is expected.
    pub n_members: usize,
    /// The text by which the predicate of the date is recognised.
    pub date_field: String,
    /// The highest date present in the data dump.
    pub highest_date: i64,
    /// The lowest date present in the data dump.
    pub lowest_date: i64,
    /// The address of the server that will host the documents.
    pub server_address: String,
}

} // verus!
