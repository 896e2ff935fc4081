//! Members: the records that the pipeline assembles and files.

use vstd::prelude::*;
use vstd::string::*;

verus! {

/// The views of a sequence of texts.
pub open spec fn text_views(texts: Seq<String>) -> Seq<Seq<char>> {
    texts.map_values(|t: String| t@)
}

/// Every triple of `lines` as a statement: followed by a full stop and a
/// line break.
pub open spec fn lines_text(lines: Seq<Seq<char>>) -> Seq<char>
    decreases lines.len(),
{
    if lines.len() == 0 {
        Seq::empty()
    } else {
        lines_text(lines.drop_last()) + lines.last() + seq![' ', '.', '\n']
    }
}

/// A copy of a list of texts.
pub fn clone_texts(texts: &Vec<String>) -> (r: Vec<String>)
    ensures
        text_views(r@) == text_views(texts@),
{
    let mut r: Vec<String> = Vec::with_capacity(texts.len());
    let mut i: usize = 0;
    while i < texts.len()
        invariant
            i <= texts.len(),
            r.len() == i,
            forall|k: int| 0 <= k < i ==> (#[trigger] r@[k])@ == texts@[k]@,
        decreases texts.len() - i,
    {
        r.push(texts[i].clone());
        i += 1;
    }
    assert(text_views(r@) =~= text_views(texts@));
    r
}

/// A bounded group of triples that describes one entity of the stream.
#[derive(Debug, PartialEq, Eq, Hash)]
pub struct Member {
    /// The triples of the member, in the order of the source document.
    pub properties: Vec<String>,
    /// The date of the member in seconds since the Unix epoch.
    pub date: i64,
    /// The subject that identifies the member; empty while none is known.
    pub id: String,
}

/// What a [`Member`] holds.
pub struct MemberView {
    pub properties: Seq<Seq<char>>,
    pub date: i64,
    pub id: Seq<char>,
}

impl MemberView {
    /// The member without any property, date or identifier.
    pub open spec fn empty() -> MemberView {
        MemberView { properties: Seq::empty(), date: 0, id: Seq::empty() }
    }

    /// The serialisation of the member: its properties as statements, one
    /// per line.
    pub open spec fn text(self) -> Seq<char> {
        lines_text(self.properties)
    }
}

impl View for Member {
    type V = MemberView;

    open spec fn view(&self) -> MemberView {
        MemberView { properties: text_views(self.properties@), date: self.date, id: self.id@ }
    }
}

impl Default for Member {
    fn default() -> (r: Self)
        ensures
            r@ == MemberView::empty(),
    {
        let r = Member { properties: Vec::new(), date: 0, id: String::new() };
        assert(r@.properties =~= Seq::empty());
        r
    }
}

impl Clone for Member {
    fn clone(&self) -> (r: Self)
        ensures
            r@ == self@,
    {
        Member { properties: clone_texts(&self.properties), date: self.date, id: self.id.clone() }
    }
}

impl Member {
    /// An empty member with room for `n_properties` properties.
    pub fn new(n_properties: usize) -> (r: Self)
        ensures
            r@ == MemberView::empty(),
    {
        let r = Member { properties: Vec::with_capacity(n_properties), date: 0, id: String::new() };
        assert(r@.properties =~= Seq::empty());
        r
    }

    /// Serialises the member: every property as a statement on a line of its
    /// own.
    pub fn to_string(&self) -> (r: String)
        ensures
            r@ == self@.text(),
    {
        let mut resp = String::new();
        let mut i: usize = 0;
        while i < self.properties.len()
            invariant
                i <= self.properties.len(),
                resp@ == lines_text(text_views(self.properties@).take(i as int)),
            decreases self.properties.len() - i,
        {
            let ghost done = text_views(self.properties@).take(i as int);
            let ghost next = text_views(self.properties@).take(i + 1);
            resp.append(self.properties[i].as_str());
            resp.append(" .\n");
            proof {
                reveal_strlit(" .\n");
                assert(next.drop_last() =~= done);
                assert(next.last() == self.properties@[i as int]@);
                assert(resp@ =~= lines_text(done) + next.last() + seq![' ', '.', '\n']);
            }
            i += 1;
        }
        assert(text_views(self.properties@).take(i as int) =~= text_views(self.properties@));
        resp
    }
}

/// The views of a sequence of members.
pub open spec fn member_views(members: Seq<Member>) -> Seq<MemberView> {
    members.map_values(|m: Member| m@)
}

/// The serialisations of `members`, one after the other.
pub open spec fn members_text(members: Seq<MemberView>) -> Seq<char>
    decreases members.len(),
{
    if members.len() == 0 {
        Seq::empty()
    } else {
        members_text(members.drop_last()) + members.last().text()
    }
}

/// A copy of a list of members.
pub fn clone_members(members: &Vec<Member>) -> (r: Vec<Member>)
    ensures
        member_views(r@) == member_views(members@),
{
    let mut r: Vec<Member> = Vec::with_capacity(members.len());
    let mut i: usize = 0;
    while i < members.len()
        invariant
            i <= members.len(),
            r.len() == i,
            forall|k: int| 0 <= k < i ==> (#[trigger] r@[k])@ == members@[k]@,
        decreases members.len() - i,
    {
        r.push(members[i].clone());
        i += 1;
    }
    assert(member_views(r@) =~= member_views(members@));
    r
}

} // verus!
