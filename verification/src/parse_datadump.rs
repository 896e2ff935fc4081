//! The assembly of members from the triples of a data dump.

use crate::config::{clone_schema, Config, Schema, schema_views, SchemaValidatorInput, SchemaView};
use crate::error::{ErrorKind, Failure};
use crate::fragmentation::action::{action_views, ActionOutline, FileAction};
use crate::fragmentation::fragment::FragmentView;
use crate::fragmentation::factory::{AnyFragmentation, FragmentationTypeName};
use crate::fragmentation::linked_list_fragmentation::LinkedListFragmentation;
use crate::fragmentation::one_ary_tree_fragmentation::OneAryTreeFragmentation;
use crate::fragmentation::tree::{lemma_all_new, Tree};
use crate::fragmentation::one_ary_tree_fragmentation::{
    first_row, is_valid_range, lemma_first_row_covers, lemma_first_row_is_new, valid_range,
};
use crate::fragmentation::account::{
    cached, lemma_account_closed, lemma_account_step, lemma_cached_nothing, lemma_filing_accounts,
    lemma_filing_all_accounts, lemma_no_members, lemma_written_concat, written,
};
use crate::fragmentation::action::{action_outlines, lemma_views_concat, outlines_of};
use crate::fragmentation::linked_list_fragmentation::{
    lemma_list_publication_accounts, list_publication_outline, published_leaves,
};
use crate::fragmentation::one_ary_tree_fragmentation::{
    construction_outline, lemma_construction_writes_nothing, lemma_publication_accounts,
    publication_outline,
};
use crate::fragmentation::tree::{is_tree_below, lemma_tree_outline_writes_nothing, tree_outline};
use crate::fragmentation::{
    all_flushed, all_written, blanked, engine_wf, filed_all, files_at, filing_all_actions,
    Fragmentation, FragmentationError, has_destination, lemma_all_flushed,
    lemma_layout_destinations, lemma_layout_flushed, lemma_layout_kept, lemma_survivors, survivors,
    total_size,
};
use crate::member::{Member, member_views, MemberView};
use crate::pattern::{
    compile, is_match, matches_as_compiled, pattern_compiles, pattern_matches, pattern_of,
};
use crate::rdf::{parse_turtle, parsed_turtle, Triple, triple_views, TripleView};
use crate::text::{occurs_in, str_contains};
use crate::time::{date_time_format, in_calendar, parse_date, parsed_date_time};
use vstd::prelude::*;
use vstd::string::*;

verus! {

/// The rules by which members are assembled.
pub struct RulesView {
    /// The regular expression that the subject of a member matches.
    pub pattern: Seq<char>,
    /// The rules that a member has to satisfy to be complete.
    pub schema: Seq<SchemaView>,
    /// The text by which the predicate of the date is recognised.
    pub date_field: Seq<char>,
}

/// The state of an assembly between two triples.
pub struct AssemblerView {
    /// The member under construction.
    pub current: MemberView,
    /// For each rule, whether a triple of the member under construction has
    /// satisfied it.
    pub mask: Seq<bool>,
    /// The number of members that were completed.
    pub n_emitted: usize,
}

/// A mask of that length without any rule satisfied.
pub open spec fn blank_mask(len: nat) -> Seq<bool> {
    Seq::new(len, |i: int| false)
}

/// Every rule of the mask is satisfied.
pub open spec fn is_complete(mask: Seq<bool>) -> bool {
    forall|i: int| 0 <= i < mask.len() ==> #[trigger] mask[i]
}

impl RulesView {
    /// The state before the first triple.
    pub open spec fn initial(self) -> AssemblerView {
        AssemblerView {
            current: MemberView::empty(),
            mask: blank_mask(self.schema.len()),
            n_emitted: 0,
        }
    }

    /// The triple gives the date of its member.
    pub open spec fn is_dated(self, triple: TripleView) -> bool {
        occurs_in(self.date_field, triple.predicate)
    }

    /// The triple can be taken: where it gives the date of its member, its
    /// object is a typed literal that holds a date.
    pub open spec fn is_acceptable(self, triple: TripleView) -> bool {
        self.is_dated(triple) ==> date_of(triple).is_some()
    }

    /// The identifier of the member under construction once the triple is
    /// taken: the first triple of a member names it, if its subject matches
    /// the regular expression.
    pub open spec fn id_after(self, state: AssemblerView, triple: TripleView) -> Seq<char> {
        if state.current.properties.len() == 0 && pattern_matches(self.pattern, triple.subject) {
            triple.subject
        } else {
            state.current.id
        }
    }

    /// The member under construction once the triple is taken.
    pub open spec fn grown(self, state: AssemblerView, triple: TripleView) -> MemberView {
        MemberView {
            properties: state.current.properties.push(triple.text()),
            date: if self.is_dated(triple) {
                date_of(triple).unwrap()
            } else {
                state.current.date
            },
            id: self.id_after(state, triple),
        }
    }

    /// Rule `i` is satisfied by the triple, for a member of that identifier.
    pub open spec fn satisfies(self, i: int, triple: TripleView, member_id: Seq<char>) -> bool {
        self.schema[i].accepts(triple.subject, triple.predicate, member_id, Seq::empty())
    }

    /// The mask once the triple is taken.
    pub open spec fn mask_after(self, state: AssemblerView, triple: TripleView) -> Seq<bool> {
        Seq::new(
            state.mask.len(),
            |i: int| state.mask[i] || self.satisfies(i, triple, self.id_after(state, triple)),
        )
    }

    /// The member that the triple completes, if it completes one.
    pub open spec fn emitted(self, state: AssemblerView, triple: TripleView) -> Option<MemberView> {
        if is_complete(self.mask_after(state, triple)) {
            Some(self.grown(state, triple))
        } else {
            None
        }
    }

    /// The state once the triple is taken: the member under construction has
    /// grown by the triple, or, where the triple completed it, a new member
    /// is begun.
    pub open spec fn step(self, state: AssemblerView, triple: TripleView) -> AssemblerView {
        if is_complete(self.mask_after(state, triple)) {
            AssemblerView {
                current: MemberView::empty(),
                mask: blank_mask(state.mask.len()),
                n_emitted: (state.n_emitted + 1) as usize,
            }
        } else {
            AssemblerView {
                current: self.grown(state, triple),
                mask: self.mask_after(state, triple),
                n_emitted: state.n_emitted,
            }
        }
    }
}

/// The date that the object of a triple holds, if it is a typed literal in
/// the library's layout.
pub open spec fn date_of(triple: TripleView) -> Option<i64> {
    match triple.typed_value {
        Some(value) => parsed_date_time(value, date_time_format()),
        None => None,
    }
}

/// The view of an optional member.
pub open spec fn member_view(member: Option<Member>) -> Option<MemberView> {
    match member {
        Some(m) => Some(m@),
        None => None,
    }
}

/// The rules that a configuration asks for.
pub open spec fn rules_of(config: &Config) -> RulesView {
    RulesView {
        pattern: config.member_url_regex@,
        schema: schema_views(config.schema@),
        date_field: config.date_field@,
    }
}

/// Turns triples into members: each triple joins the member under
/// construction, and the member is handed over as soon as every rule of the
/// schema has been satisfied by one of its triples.
#[derive(Debug)]
pub struct MemberAssembler {
    current_member: Member,
    valid_properties: Vec<bool>,
    n_member_parsed: usize,
    re_member_id: regex::Regex,
    schema: Vec<Schema>,
    date_field: String,
}

impl View for MemberAssembler {
    type V = AssemblerView;

    closed spec fn view(&self) -> AssemblerView {
        AssemblerView {
            current: self.current_member@,
            mask: self.valid_properties@,
            n_emitted: self.n_member_parsed,
        }
    }
}

/// Tells whether every rule of the mask is satisfied.
pub fn all_set(mask: &Vec<bool>) -> (r: bool)
    ensures
        r == is_complete(mask@),
{
    let mut i: usize = 0;
    while i < mask.len()
        invariant
            i <= mask.len(),
            forall|k: int| 0 <= k < i ==> #[trigger] mask@[k],
        decreases mask.len() - i,
    {
        if !mask[i] {
            return false;
        }
        i += 1;
    }
    true
}

/// A mask of that length without any rule satisfied.
pub fn new_mask(len: usize) -> (r: Vec<bool>)
    ensures
        r@ == blank_mask(len as nat),
{
    let mut resp: Vec<bool> = Vec::with_capacity(len);
    let mut i: usize = 0;
    while i < len
        invariant
            i <= len,
            resp.len() == i,
            forall|k: int| 0 <= k < i ==> !(#[trigger] resp@[k]),
        decreases len - i,
    {
        resp.push(false);
        i += 1;
    }
    assert(resp@ =~= blank_mask(len as nat));
    resp
}

impl MemberAssembler {
    /// The rules by which the assembler works.
    pub closed spec fn rules(&self) -> RulesView {
        RulesView {
            pattern: pattern_of(self.re_member_id),
            schema: schema_views(self.schema@),
            date_field: self.date_field@,
        }
    }

    /// The expression matches as the expression made from the pattern of the
    /// rules does.
    pub closed spec fn matches_by_the_rules(&self) -> bool {
        matches_as_compiled(self.re_member_id)
    }

    /// The mask has one entry per rule, the date of the member under
    /// construction is a date of the calendar, and subjects are held against
    /// the pattern of the rules.
    pub open spec fn wf(&self) -> bool {
        &&& self@.mask.len() == self.rules().schema.len()
        &&& in_calendar(self@.current.date as int)
        &&& self.matches_by_the_rules()
    }

    /// An assembler for the rules of the configuration, before the first
    /// triple. The configuration is refused where its regular expression is
    /// not well formed.
    pub fn new(config: &Config) -> (r: Result<Self, ErrorKind>)
        ensures
            r is Ok <==> pattern_compiles(config.member_url_regex@),
            match r {
                Ok(assembler) => {
                    &&& assembler.rules() == rules_of(config)
                    &&& assembler@ == rules_of(config).initial()
                    &&& assembler.wf()
                },
                Err(e) => e == ErrorKind::ConfigInvalid,
            },
    {
        match compile(config.member_url_regex.as_str()) {
            Ok(re_member_id) => {
                let n_properties = config.schema.len();
                let schema = clone_schema(&config.schema);
                assert(schema@.len() == schema_views(schema@).len());
                Ok(
                    MemberAssembler {
                        current_member: Member::default(),
                        valid_properties: new_mask(n_properties),
                        n_member_parsed: 0,
                        re_member_id,
                        schema,
                        date_field: config.date_field.clone(),
                    },
                )
            },
            Err(_) => Err(ErrorKind::ConfigInvalid),
        }
    }

    /// The number of members that were completed.
    pub fn n_member_parsed(&self) -> (r: usize)
        ensures
            r == self@.n_emitted,
    {
        self.n_member_parsed
    }

    /// Takes the next triple of the source. The triple joins the member under
    /// construction; the first triple of a member names it, if its subject
    /// matches the regular expression; a triple of the date field dates it.
    /// Where every rule of the schema is then satisfied, the member is handed
    /// over and a new one is begun. A triple of the date field whose object
    /// holds no date is refused, and nothing changes.
    pub fn push(&mut self, triple: &Triple) -> (r: Result<Option<Member>, ErrorKind>)
        requires
            old(self).wf(),
            old(self)@.n_emitted < usize::MAX,
        ensures
            final(self).wf(),
            final(self).rules() == old(self).rules(),
            r is Ok <==> old(self).rules().is_acceptable(triple@),
            match r {
                Ok(member) => {
                    &&& final(self)@ == old(self).rules().step(old(self)@, triple@)
                    &&& member_view(member) == old(self).rules().emitted(
                        old(self)@,
                        triple@,
                    )
                },
                Err(e) => e == ErrorKind::SchemaContractViolation && final(self)@ == old(self)@,
            },
            r matches Ok(Some(member)) ==> in_calendar(member.date as int),
    {
        let ghost rules = self.rules();
        let ghost before = self@;
        let mut date = self.current_member.date;
        if str_contains(triple.predicate.as_str(), self.date_field.as_str()) {
            match &triple.typed_value {
                Some(value) => {
                    match parse_date(value.as_str()) {
                        Some(seconds) => {
                            date = seconds;
                        },
                        None => {
                            return Err(ErrorKind::SchemaContractViolation);
                        },
                    }
                },
                None => {
                    return Err(ErrorKind::SchemaContractViolation);
                },
            }
        }
        if self.current_member.properties.len() == 0 {
            if is_match(&self.re_member_id, triple.subject.as_str()) {
                self.current_member.id = triple.subject.clone();
            }
        }
        self.current_member.properties.push(triple.to_string());
        self.current_member.date = date;
        proof {
            assert(self.current_member@.properties =~= before.current.properties.push(
                triple@.text(),
            ));
            assert(self.current_member@ == rules.grown(before, triple@));
        }
        let input = SchemaValidatorInput {
            subject: triple.subject.clone(),
            predicate: triple.predicate.clone(),
            object: triple.object.clone(),
            member_id: self.current_member.id.clone(),
            related_subject: Vec::new(),
        };
        assert(crate::member::text_views(input.related_subject@) =~= Seq::<Seq<char>>::empty());
        let n = self.schema.len();
        let mut i: usize = 0;
        while i < n
            invariant
                i <= n,
                n == self.schema.len(),
                self.rules() == rules,
                self.matches_by_the_rules(),
                self.valid_properties.len() == n,
                before.mask.len() == n,
                rules.schema.len() == n,
                self.current_member@ == rules.grown(before, triple@),
                in_calendar(self.current_member.date as int),
                self.n_member_parsed == before.n_emitted,
                input.subject@ == triple@.subject,
                input.predicate@ == triple@.predicate,
                input.member_id@ == rules.id_after(before, triple@),
                crate::member::text_views(input.related_subject@) == Seq::<Seq<char>>::empty(),
                forall|k: int|
                    0 <= k < i ==> #[trigger] self.valid_properties@[k] == rules.mask_after(
                        before,
                        triple@,
                    )[k],
                forall|k: int| i <= k < n ==> #[trigger] self.valid_properties@[k] == before.mask[k],
            decreases n - i,
        {
            assert(schema_views(self.schema@)[i as int] == self.schema@[i as int]@);
            if self.schema[i].is_valid(&input) {
                self.valid_properties.set(i, true);
            }
            i += 1;
        }
        assert(self.valid_properties@ =~= rules.mask_after(before, triple@));
        if all_set(&self.valid_properties) {
            let mut member = Member::new(n);
            core::mem::swap(&mut self.current_member, &mut member);
            self.valid_properties = new_mask(n);
            self.n_member_parsed = self.n_member_parsed + 1;
            Ok(Some(member))
        } else {
            Ok(None)
        }
    }
}

/// What the triples of a source have been assembled to.
pub struct Assembly {
    /// The state after the last triple.
    pub state: AssemblerView,
    /// The members that were completed, in the order of their completion.
    pub members: Seq<MemberView>,
    /// For each member, the run of triples that it was assembled from.
    pub segments: Seq<Seq<TripleView>>,
    /// The triples of the member under construction.
    pub pending: Seq<TripleView>,
}

/// The assembly of the triples, taken one by one from the first; nothing
/// where one of them cannot be taken.
pub open spec fn assembly(rules: RulesView, triples: Seq<TripleView>) -> Option<Assembly>
    decreases triples.len(),
{
    if triples.len() == 0 {
        Some(
            Assembly {
                state: rules.initial(),
                members: Seq::empty(),
                segments: Seq::empty(),
                pending: Seq::empty(),
            },
        )
    } else {
        match assembly(rules, triples.drop_last()) {
            None => None,
            Some(before) => {
                let triple = triples.last();
                if !rules.is_acceptable(triple) {
                    None
                } else {
                    match rules.emitted(before.state, triple) {
                        Some(member) => Some(
                            Assembly {
                                state: rules.step(before.state, triple),
                                members: before.members.push(member),
                                segments: before.segments.push(before.pending.push(triple)),
                                pending: Seq::empty(),
                            },
                        ),
                        None => Some(
                            Assembly {
                                state: rules.step(before.state, triple),
                                members: before.members,
                                segments: before.segments,
                                pending: before.pending.push(triple),
                            },
                        ),
                    }
                }
            },
        }
    }
}

/// Where a triple cannot be taken, none of the triples after it is.
pub proof fn lemma_assembly_stops(rules: RulesView, triples: Seq<TripleView>, i: int)
    requires
        0 <= i <= triples.len(),
        assembly(rules, triples.take(i)) is None,
    ensures
        assembly(rules, triples) is None,
    decreases triples.len() - i,
{
    if i < triples.len() {
        assert(triples.take(i + 1).drop_last() =~= triples.take(i));
        lemma_assembly_stops(rules, triples, i + 1);
    } else {
        assert(triples.take(i) =~= triples);
    }
}

/// Assembles the triples of a source into members, by the rules of the
/// configuration. The members come in the order of their completion; the
/// triples after the last complete member are dropped. The configuration is
/// refused where its regular expression is not well formed, and the source
/// where a triple of the date field holds no date.
pub fn assemble(config: &Config, triples: &Vec<Triple>) -> (r: Result<Vec<Member>, ErrorKind>)
    ensures
        match r {
            Ok(members) => {
                &&& pattern_compiles(config.member_url_regex@)
                &&& assembly(rules_of(config), triple_views(triples@)) matches Some(done)
                &&& member_views(members@) == done.members
                &&& forall|j: int|
                    0 <= j < members.len() ==> in_calendar((#[trigger] members@[j]).date as int)
            },
            Err(ErrorKind::ConfigInvalid) => !pattern_compiles(config.member_url_regex@),
            Err(ErrorKind::SchemaContractViolation) => pattern_compiles(config.member_url_regex@)
                && assembly(rules_of(config), triple_views(triples@)) is None,
            Err(_) => false,
        },
{
    let ghost rules = rules_of(config);
    let ghost views = triple_views(triples@);
    let mut assembler = match MemberAssembler::new(config) {
        Ok(assembler) => assembler,
        Err(e) => {
            return Err(e);
        },
    };
    let mut members: Vec<Member> = Vec::new();
    let mut i: usize = 0;
    assert(views.take(0) =~= Seq::<TripleView>::empty());
    assert(member_views(members@) =~= Seq::<MemberView>::empty());
    while i < triples.len()
        invariant
            i <= triples.len(),
            views == triple_views(triples@),
            rules == rules_of(config),
            pattern_compiles(config.member_url_regex@),
            assembler.wf(),
            assembler.rules() == rules,
            assembler@.n_emitted == members.len(),
            members.len() <= i,
            assembly(rules, views.take(i as int)) matches Some(done) && done.state == assembler@
                && done.members == member_views(members@),
            forall|j: int|
                0 <= j < members.len() ==> in_calendar((#[trigger] members@[j]).date as int),
        decreases triples.len() - i,
    {
        let ghost done = assembly(rules, views.take(i as int)).unwrap();
        let ghost before = member_views(members@);
        proof {
            assert(views.take(i + 1).drop_last() =~= views.take(i as int));
            assert(views.take(i + 1).last() == triples@[i as int]@);
        }
        match assembler.push(&triples[i]) {
            Ok(Some(member)) => {
                members.push(member);
                assert(member_views(members@) =~= before.push(member@));
            },
            Ok(None) => {},
            Err(e) => {
                proof {
                    lemma_assembly_stops(rules, views, i + 1);
                }
                return Err(e);
            },
        }
        i += 1;
    }
    assert(views.take(i as int) =~= views);
    Ok(members)
}

/// The texts of a run of triples.
pub open spec fn triple_texts(segment: Seq<TripleView>) -> Seq<Seq<char>> {
    segment.map_values(|t: TripleView| t.text())
}

/// The identifier of the member that a run of triples is assembled to: the
/// subject of the first triple, if it matches the regular expression.
pub open spec fn segment_id(rules: RulesView, segment: Seq<TripleView>) -> Seq<char> {
    if segment.len() > 0 && pattern_matches(rules.pattern, segment[0].subject) {
        segment[0].subject
    } else {
        Seq::empty()
    }
}

/// The date of the member that a run of triples is assembled to: the date
/// that the last triple of the date field holds.
pub open spec fn segment_date(rules: RulesView, segment: Seq<TripleView>) -> i64
    decreases segment.len(),
{
    if segment.len() == 0 {
        0
    } else if rules.is_dated(segment.last()) {
        date_of(segment.last()).unwrap()
    } else {
        segment_date(rules, segment.drop_last())
    }
}

/// Some triple of the run satisfies rule `i`, for a member of that
/// identifier.
pub open spec fn rule_met(rules: RulesView, i: int, segment: Seq<TripleView>, member_id: Seq<char>) -> bool {
    exists|k: int| 0 <= k < segment.len() && #[trigger] rules.satisfies(i, segment[k], member_id)
}

/// Some triple of the run is of the date field and holds the date.
pub open spec fn dated_by(rules: RulesView, segment: Seq<TripleView>, date: i64) -> bool {
    exists|k: int|
        0 <= k < segment.len() && #[trigger] rules.is_dated(segment[k]) && date_of(segment[k])
            == Some(date)
}

/// Some triple of the run is of the date field.
pub open spec fn has_date(rules: RulesView, segment: Seq<TripleView>) -> bool {
    exists|k: int| 0 <= k < segment.len() && #[trigger] rules.is_dated(segment[k])
}

/// Every triple of the run can be taken.
pub open spec fn all_acceptable(rules: RulesView, segment: Seq<TripleView>) -> bool {
    forall|k: int| 0 <= k < segment.len() ==> #[trigger] rules.is_acceptable(segment[k])
}

/// The member is what the run of triples is assembled to: its properties are
/// the triples of the run, in their order; the first triple names it; and the
/// last triple of the date field dates it.
pub open spec fn is_assembled_from(rules: RulesView, member: MemberView, segment: Seq<TripleView>) -> bool {
    &&& member.properties == triple_texts(segment)
    &&& member.id == segment_id(rules, segment)
    &&& member.date == segment_date(rules, segment)
    &&& all_acceptable(rules, segment)
}

/// The member is complete: every rule of the schema is satisfied by a triple
/// of the run that the member is assembled from.
pub open spec fn is_complete_member(rules: RulesView, member: MemberView, segment: Seq<TripleView>) -> bool {
    &&& segment.len() > 0
    &&& is_assembled_from(rules, member, segment)
    &&& forall|i: int|
        0 <= i < rules.schema.len() ==> #[trigger] rule_met(rules, i, segment, member.id)
    &&& has_date(rules, segment) ==> dated_by(rules, segment, member.date)
}

/// All runs, one after the other.
pub open spec fn joined(segments: Seq<Seq<TripleView>>) -> Seq<TripleView>
    decreases segments.len(),
{
    if segments.len() == 0 {
        Seq::empty()
    } else {
        joined(segments.drop_last()) + segments.last()
    }
}

/// What holds of an assembly after every triple: the member under
/// construction is what the pending triples are assembled to, and each rule
/// that the mask holds for satisfied is satisfied by a pending triple.
pub open spec fn tracks(rules: RulesView, state: AssemblerView, pending: Seq<TripleView>) -> bool {
    &&& state.mask.len() == rules.schema.len()
    &&& is_assembled_from(rules, state.current, pending)
    &&& forall|i: int|
        0 <= i < state.mask.len() && state.mask[i] ==> #[trigger] rule_met(
            rules,
            i,
            pending,
            state.current.id,
        )
}

/// The date of a run that holds a triple of the date field is the date of
/// one of those triples.
pub proof fn lemma_segment_date(rules: RulesView, segment: Seq<TripleView>)
    requires
        all_acceptable(rules, segment),
        has_date(rules, segment),
    ensures
        dated_by(rules, segment, segment_date(rules, segment)),
    decreases segment.len(),
{
    let k = choose|k: int| 0 <= k < segment.len() && #[trigger] rules.is_dated(segment[k]);
    let last = segment.len() - 1;
    assert(rules.is_acceptable(segment[last]));
    if rules.is_dated(segment.last()) {
        assert(rules.is_dated(segment[last]) && date_of(segment[last]) == Some(
            segment_date(rules, segment),
        ));
    } else {
        let rest = segment.drop_last();
        assert(k < last);
        assert(rules.is_dated(rest[k]));
        assert forall|j: int| 0 <= j < rest.len() implies #[trigger] rules.is_acceptable(
            rest[j],
        ) by {
            assert(rules.is_acceptable(segment[j]));
        }
        lemma_segment_date(rules, rest);
        let j = choose|j: int|
            0 <= j < rest.len() && #[trigger] rules.is_dated(rest[j]) && date_of(rest[j]) == Some(
                segment_date(rules, rest),
            );
        assert(rules.is_dated(segment[j]) && date_of(segment[j]) == Some(
            segment_date(rules, segment),
        ));
    }
}

/// One more triple keeps what holds of an assembly, and a member that the
/// triple completes is complete.
pub proof fn lemma_step_tracks(
    rules: RulesView,
    state: AssemblerView,
    pending: Seq<TripleView>,
    triple: TripleView,
)
    requires
        tracks(rules, state, pending),
        rules.is_acceptable(triple),
    ensures
        match rules.emitted(state, triple) {
            Some(member) => is_complete_member(rules, member, pending.push(triple)) && tracks(
                rules,
                rules.step(state, triple),
                Seq::empty(),
            ),
            None => tracks(rules, rules.step(state, triple), pending.push(triple)),
        },
{
    let longer = pending.push(triple);
    let member = rules.grown(state, triple);
    let mask = rules.mask_after(state, triple);
    assert(longer.drop_last() =~= pending);
    assert(triple_texts(longer) =~= triple_texts(pending).push(triple.text()));
    assert(triple_texts(pending).len() == pending.len());
    assert(longer[0] == if pending.len() == 0 {
        triple
    } else {
        pending[0]
    });
    assert(member.id == segment_id(rules, longer));
    assert forall|k: int| 0 <= k < longer.len() implies #[trigger] rules.is_acceptable(
        longer[k],
    ) by {
        if k < pending.len() {
            assert(rules.is_acceptable(pending[k]));
        }
    }
    assert(is_assembled_from(rules, member, longer));
    assert forall|i: int| 0 <= i < mask.len() && mask[i] implies #[trigger] rule_met(
        rules,
        i,
        longer,
        member.id,
    ) by {
        if state.mask[i] {
            assert(rule_met(rules, i, pending, state.current.id));
            let k = choose|k: int|
                0 <= k < pending.len() && #[trigger] rules.satisfies(
                    i,
                    pending[k],
                    state.current.id,
                );
            assert(member.id == state.current.id);
            assert(rules.satisfies(i, longer[k], member.id));
        } else {
            assert(rules.satisfies(i, longer[pending.len() as int], member.id));
        }
    }
    if is_complete(mask) {
        assert forall|i: int| 0 <= i < rules.schema.len() implies #[trigger] rule_met(
            rules,
            i,
            longer,
            member.id,
        ) by {
            assert(mask[i]);
        }
        if has_date(rules, longer) {
            lemma_segment_date(rules, longer);
        }
        let fresh = rules.step(state, triple);
        assert(triple_texts(Seq::<TripleView>::empty()) =~= Seq::<Seq<char>>::empty());
        assert(is_assembled_from(rules, fresh.current, Seq::empty()));
    }
}

/// Every member that an assembly completes is complete: each rule of the
/// schema is satisfied by one of the triples that the member was assembled
/// from, and where one of them is of the date field, the member has the date
/// that such a triple holds. The runs of the members, followed by the triples
/// of the member under construction, are the triples of the source.
pub proof fn lemma_members_complete(rules: RulesView, triples: Seq<TripleView>)
    requires
        assembly(rules, triples) is Some,
    ensures
        ({
            let done = assembly(rules, triples).unwrap();
            &&& done.members.len() == done.segments.len()
            &&& forall|j: int|
                0 <= j < done.members.len() ==> is_complete_member(
                    rules,
                    #[trigger] done.members[j],
                    done.segments[j],
                )
            &&& joined(done.segments) + done.pending == triples
            &&& tracks(rules, done.state, done.pending)
        }),
    decreases triples.len(),
{
    let done = assembly(rules, triples).unwrap();
    if triples.len() == 0 {
        assert(triple_texts(Seq::<TripleView>::empty()) =~= Seq::<Seq<char>>::empty());
        assert(joined(done.segments) + done.pending =~= triples);
    } else {
        let rest = triples.drop_last();
        let triple = triples.last();
        lemma_members_complete(rules, rest);
        let before = assembly(rules, rest).unwrap();
        lemma_step_tracks(rules, before.state, before.pending, triple);
        match rules.emitted(before.state, triple) {
            Some(member) => {
                assert(done.segments.drop_last() =~= before.segments);
                assert(joined(done.segments) + done.pending =~= (joined(before.segments)
                    + before.pending).push(triple));
                assert forall|j: int| 0 <= j < done.members.len() implies is_complete_member(
                    rules,
                    #[trigger] done.members[j],
                    done.segments[j],
                ) by {
                    if j < before.members.len() {
                        assert(done.members[j] == before.members[j]);
                        assert(done.segments[j] == before.segments[j]);
                    }
                }
            },
            None => {
                assert(joined(done.segments) + done.pending =~= (joined(before.segments)
                    + before.pending).push(triple));
            },
        }
        assert(rest.push(triple) =~= triples);
    }
}

/// The capacity of the caches for a run: a twentieth of the members that a
/// fragment is expected to take, and at least one.
pub open spec fn capacity_for(n_members: usize, n_fragments: usize) -> int {
    let share = (n_members as int) / (n_fragments * 20);
    if share != 0 {
        share
    } else {
        1
    }
}

/// Computes the capacity of the caches for a run.
pub fn cache_capacity(n_members: usize, n_fragments: usize) -> (r: usize)
    requires
        n_fragments > 0,
    ensures
        r == capacity_for(n_members, n_fragments),
{
    if n_fragments > usize::MAX / 20 {
        proof {
            vstd::arithmetic::div_mod::lemma_basic_div(n_members as int, n_fragments * 20);
        }
        1
    } else {
        let share = n_members / (n_fragments * 20);
        if share != 0 {
            share
        } else {
            1
        }
    }
}

/// Tells whether it is time to report progress: after every
/// `notice_frequency` members.
pub fn progress_due(n_member_parsed: usize, notice_frequency: usize) -> (r: bool)
    requires
        notice_frequency > 0,
    ensures
        r == (n_member_parsed % notice_frequency == 0),
{
    n_member_parsed % notice_frequency == 0
}

/// The arguments of a run can be used together: there are at least two
/// fragments in the first row, a depth is at least one, and a balanced tree
/// has a depth.
pub open spec fn arguments_valid(
    n_fragments: usize,
    dept: Option<usize>,
    fragmentation_type: FragmentationTypeName,
) -> bool {
    &&& n_fragments >= 2
    &&& dept != Some(0usize)
    &&& fragmentation_type == FragmentationTypeName::Tree ==> dept is Some
}

/// Checks that the arguments of a run can be used together.
pub fn check_arguments(
    n_fragments: usize,
    dept: Option<usize>,
    fragmentation_type: FragmentationTypeName,
) -> (r: Result<(), ErrorKind>)
    ensures
        r is Ok <==> arguments_valid(n_fragments, dept, fragmentation_type),
        r matches Err(e) ==> e == ErrorKind::CliInvalid,
{
    if n_fragments < 2 {
        return Err(ErrorKind::CliInvalid);
    }
    match dept {
        Some(depth) => {
            if depth == 0 {
                return Err(ErrorKind::CliInvalid);
            }
        },
        None => {
            match fragmentation_type {
                FragmentationTypeName::Tree => {
                    return Err(ErrorKind::CliInvalid);
                },
                _ => {},
            }
        },
    }
    Ok(())
}

/// Files the members with the fragmentation, one by one in their order, and
/// returns the actions that this asks for. Where the caches have no room for
/// a single member, the first member is refused and nothing changes.
pub fn file_members<F: Fragmentation>(fragmentation: &mut F, members: &Vec<Member>) -> (r: Result<
    Vec<FileAction>,
    ErrorKind,
>)
    requires
        engine_wf(old(fragmentation).model()),
        old(fragmentation).model().fragments.len() > 0,
        total_size(old(fragmentation).model().fragments) + members.len() <= usize::MAX,
        forall|j: int|
            0 <= j < members.len() ==> has_destination(
                old(fragmentation).model().fragments,
                (#[trigger] members@[j]).date,
            ),
    ensures
        engine_wf(final(fragmentation).model()),
        r is Ok <==> members.len() == 0 || old(fragmentation).model().max_size_cache >= 2,
        match r {
            Ok(_) => {
                &&& total_size(final(fragmentation).model().fragments) == total_size(
                    old(fragmentation).model().fragments,
                ) + members.len()
                &&& blanked(final(fragmentation).model().fragments) == blanked(
                    old(fragmentation).model().fragments,
                )
                &&& written(action_outlines(r->Ok_0@)).add(
                    cached(final(fragmentation).model().fragments),
                ) == cached(old(fragmentation).model().fragments).add(
                    member_views(members@).to_multiset(),
                )
                &&& final(fragmentation).model().max_size_cache == old(
                    fragmentation,
                ).model().max_size_cache
                &&& final(fragmentation).model().server_address == old(
                    fragmentation,
                ).model().server_address
                &&& final(fragmentation).model().fragmentation_property == old(
                    fragmentation,
                ).model().fragmentation_property
            },
            Err(e) => e == ErrorKind::CacheFull && final(fragmentation).model() == old(
                fragmentation,
            ).model(),
        },
{
    let ghost before = fragmentation.model();
    let ghost all = member_views(members@);
    let mut actions: Vec<FileAction> = Vec::new();
    let mut i: usize = 0;
    proof {
        broadcast use vstd::multiset::group_multiset_axioms;

        lemma_no_members();
        assert(all.take(0) =~= Seq::<MemberView>::empty());
        assert(action_outlines(actions@) =~= Seq::<ActionOutline>::empty());
        assert(written(action_outlines(actions@)).add(cached(before.fragments)) =~= cached(
            before.fragments,
        ).add(all.take(0).to_multiset()));
    }
    while i < members.len()
        invariant
            i <= members.len(),
            engine_wf(fragmentation.model()),
            before == old(fragmentation).model(),
            all == member_views(members@),
            written(action_outlines(actions@)).add(cached(fragmentation.model().fragments))
                == cached(before.fragments).add(all.take(i as int).to_multiset()),
            before.fragments.len() > 0,
            total_size(before.fragments) + members.len() <= usize::MAX,
            total_size(fragmentation.model().fragments) == total_size(before.fragments) + i,
            blanked(fragmentation.model().fragments) == blanked(before.fragments),
            fragmentation.model().max_size_cache == before.max_size_cache,
            fragmentation.model().server_address == before.server_address,
            fragmentation.model().fragmentation_property == before.fragmentation_property,
            i > 0 ==> before.max_size_cache >= 2,
            i == 0 ==> fragmentation.model() == before,
            forall|j: int|
                0 <= j < members.len() ==> has_destination(
                    before.fragments,
                    (#[trigger] members@[j]).date,
                ),
        decreases members.len() - i,
    {
        let ghost current = fragmentation.model();
        let ghost done = actions@;
        proof {
            lemma_layout_destinations(
                before.fragments,
                current.fragments,
                members@[i as int].date,
            );
        }
        let outcome = fragmentation.insert(&members[i]);
        match outcome {
            Ok(mut filing) => {
                let ghost added = filing@;
                proof {
                    let pos = choose|pos: int| #[trigger]
                        files_at(
                            current,
                            fragmentation.model(),
                            action_views(filing@),
                            pos,
                            members@[i as int]@,
                        );
                    lemma_layout_kept(current.fragments, pos, members@[i as int]@);
                    lemma_filing_accounts(current.fragments, pos, members@[i as int]@);
                    lemma_account_step(
                        written(action_outlines(done)),
                        cached(current.fragments),
                        cached(before.fragments),
                        all.take(i as int).to_multiset(),
                        written(action_outlines(added)),
                        cached(fragmentation.model().fragments),
                        members@[i as int]@,
                    );
                    lemma_views_concat(done, added);
                    lemma_written_concat(action_outlines(done), action_outlines(added));
                    assert(all.take(i + 1) =~= all.take(i as int).push(members@[i as int]@));
                    vstd::seq_lib::to_multiset_build(all.take(i as int), members@[i as int]@);
                }
                actions.append(&mut filing);
            },
            Err(e) => {
                assert(e == FragmentationError::CacheFull);
                assert(before.max_size_cache <= 1);
                assert(i == 0);
                return Err(ErrorKind::CacheFull);
            },
        }
        i += 1;
    }
    assert(all.take(i as int) =~= all);
    Ok(actions)
}

/// What a run leaves behind.
#[derive(Debug)]
pub struct Run {
    /// The fragmentation, published.
    pub fragmentation: AnyFragmentation,
    /// The changes to the output directory, in the order in which they are
    /// to be made.
    pub actions: Vec<FileAction>,
    /// The number of members that were filed.
    pub n_members: usize,
}

/// Why a run fails, if it does: the arguments are held against each other
/// first, then the configuration is looked at, then the source is read, then
/// its members are assembled, and then they are filed.
pub open spec fn failure_of(
    data_dump: Seq<char>,
    data_injection_config: &Config,
    max_cache_element: usize,
    n_fragments: usize,
    fragmentation_type: FragmentationTypeName,
    dept: Option<usize>,
) -> Option<ErrorKind> {
    if !arguments_valid(n_fragments, dept, fragmentation_type) {
        Some(ErrorKind::CliInvalid)
    } else if !valid_range(
        n_fragments,
        data_injection_config.highest_date,
        data_injection_config.lowest_date,
    ) || !pattern_compiles(data_injection_config.member_url_regex@) {
        Some(ErrorKind::ConfigInvalid)
    } else {
        match parsed_turtle(data_dump) {
            None => Some(ErrorKind::ParseError),
            Some(triples) => match assembly(rules_of(data_injection_config), triples) {
                None => Some(ErrorKind::SchemaContractViolation),
                Some(done) => if done.members.len() > 0 && max_cache_element <= 1 {
                    Some(ErrorKind::CacheFull)
                } else {
                    None
                },
            },
        }
    }
}

/// The members that a run assembles from its source.
pub open spec fn members_of(data_dump: Seq<char>, data_injection_config: &Config) -> Seq<
    MemberView,
> {
    assembly(rules_of(data_injection_config), parsed_turtle(data_dump).unwrap()).unwrap().members
}

/// The fragments and the actions are what a run with those members leaves
/// behind. A one-ary tree and a linked list are laid out, take the members one
/// by one, each in the first leaf that holds its date, and are published: this
/// fixes the fragments, and the actions apart from the identifiers of the
/// relations. A balanced tree keeps the layout that it was made with, whatever
/// fragment each member went to, and its actions begin with those that laid
/// it out.
pub open spec fn is_outcome(
    fragments: Seq<FragmentView>,
    outlines: Seq<ActionOutline>,
    members: Seq<MemberView>,
    data_injection_config: &Config,
    max_cache_element: usize,
    n_fragments: usize,
    fragmentation_type: FragmentationTypeName,
    dept: Option<usize>,
) -> bool {
    let row = first_row(
        n_fragments,
        max_cache_element,
        data_injection_config.highest_date,
        data_injection_config.lowest_date,
    );
    let property = data_injection_config.date_field@;
    let server = data_injection_config.server_address@;
    let filled = filed_all(row, members);
    let laid_out = construction_outline(row, property, server) + outlines_of(
        filing_all_actions(row, members),
    );
    match fragmentation_type {
        FragmentationTypeName::OneAryTree => {
            &&& fragments == survivors(all_flushed(filled))
            &&& outlines == laid_out + publication_outline(filled, property, server)
        },
        FragmentationTypeName::LinkedList => {
            &&& fragments == published_leaves(filled)
            &&& outlines == laid_out + list_publication_outline(filled, property, server)
        },
        FragmentationTypeName::Tree => {
            &&& fragments.len() >= n_fragments
            &&& blanked(fragments).take(n_fragments as int) == row
            &&& dept matches Some(depth) && is_tree_below(
                row,
                blanked(fragments).skip(n_fragments as int),
                depth as nat,
            ) && tree_outline(blanked(fragments), n_fragments, depth, property, server).is_prefix_of(
                outlines,
            )
        },
    }
}

/// Runs the whole transformation on a data dump held in memory: the triples
/// are read, the members are assembled and filed with a new fragmentation of
/// the strategy that is asked for, and the fragmentation is published. No
/// member is lost: the fragments hold as many members as were assembled, and
/// the actions write each of them once.
pub fn parse_datadump(
    data_dump: &str,
    data_injection_config: &Config,
    max_cache_element: usize,
    n_fragments: usize,
    fragmentation_type: FragmentationTypeName,
    dept: Option<usize>,
    tree_id: String,
) -> (r: Result<Run, Failure>)
    ensures
        match r {
            Ok(run) => {
                &&& failure_of(
                    data_dump@,
                    data_injection_config,
                    max_cache_element,
                    n_fragments,
                    fragmentation_type,
                    dept,
                ) is None
                &&& run.fragmentation.kind() == fragmentation_type
                &&& engine_wf(run.fragmentation@)
                &&& all_written(run.fragmentation@.fragments)
                &&& run.n_members == members_of(data_dump@, data_injection_config).len()
                &&& total_size(run.fragmentation@.fragments) == run.n_members
                &&& run.fragmentation@.max_size_cache == max_cache_element
                &&& run.fragmentation@.server_address == data_injection_config.server_address@
                &&& run.fragmentation@.fragmentation_property == data_injection_config.date_field@
                &&& written(action_outlines(run.actions@)) == members_of(
                    data_dump@,
                    data_injection_config,
                ).to_multiset()
                &&& is_outcome(
                    run.fragmentation@.fragments,
                    action_outlines(run.actions@),
                    members_of(data_dump@, data_injection_config),
                    data_injection_config,
                    max_cache_element,
                    n_fragments,
                    fragmentation_type,
                    dept,
                )
            },
            Err(failure) => failure_of(
                data_dump@,
                data_injection_config,
                max_cache_element,
                n_fragments,
                fragmentation_type,
                dept,
            ) == Some(failure.kind),
        },
{
    match check_arguments(n_fragments, dept, fragmentation_type) {
        Ok(_) => {},
        Err(e) => {
            return Err(Failure::of(e));
        },
    }
    let highest_date = data_injection_config.highest_date;
    let lowest_date = data_injection_config.lowest_date;
    if !is_valid_range(n_fragments, highest_date, lowest_date) {
        return Err(Failure::of(ErrorKind::ConfigInvalid));
    }
    match MemberAssembler::new(data_injection_config) {
        Ok(_) => {},
        Err(e) => {
            return Err(Failure::of(e));
        },
    }
    let triples = match parse_turtle(data_dump) {
        Ok(triples) => triples,
        Err(failure) => {
            return Err(failure);
        },
    };
    let members = match assemble(data_injection_config, &triples) {
        Ok(members) => members,
        Err(e) => {
            return Err(Failure::of(e));
        },
    };
    assert(member_views(members@).len() == members.len());
    let server_address = data_injection_config.server_address.clone();
    let date_field = data_injection_config.date_field.clone();
    proof {
        assert forall|j: int| 0 <= j < members.len() implies has_destination(
            first_row(n_fragments, max_cache_element, highest_date, lowest_date),
            (#[trigger] members@[j]).date,
        ) by {
            lemma_first_row_covers(
                members@[j].date,
                n_fragments,
                max_cache_element,
                highest_date,
                lowest_date,
            );
        }
    }
    let n_members = members.len();
    match fragmentation_type {
        FragmentationTypeName::OneAryTree => {
            let (mut fragmentation, mut actions) = OneAryTreeFragmentation::new(
                n_fragments,
                max_cache_element,
                highest_date,
                lowest_date,
                server_address,
                date_field,
                tree_id,
            );
            let ghost row = fragmentation@.fragments;
            let ghost making = actions@;
            proof {
                lemma_first_row_is_new(n_fragments, max_cache_element, highest_date, lowest_date);
            }
            let mut filing = match fragmentation.insert_all(&members) {
                Ok(filing) => filing,
                Err(_) => {
                    return Err(Failure::of(ErrorKind::CacheFull));
                },
            };
            let ghost filed = filing@;
            let ghost filled = fragmentation@.fragments;
            let mut publishing = fragmentation.finalize();
            let ghost published = publishing@;
            actions.append(&mut filing);
            actions.append(&mut publishing);
            proof {
                let property = data_injection_config.date_field@;
                let server = data_injection_config.server_address@;
                lemma_all_flushed(filled, max_cache_element);
                lemma_survivors(all_flushed(filled), max_cache_element);
                assert(actions@ =~= (making + filed) + published);
                lemma_views_concat(making + filed, published);
                lemma_views_concat(making, filed);
                lemma_construction_writes_nothing(row, property, server);
                lemma_filing_all_accounts(row, member_views(members@));
                lemma_publication_accounts(filled, property, server);
                lemma_cached_nothing(row);
                lemma_account_closed(
                    action_outlines(making),
                    action_outlines(filed),
                    action_outlines(published),
                    cached(row),
                    cached(filled),
                    member_views(members@).to_multiset(),
                );
            }
            Ok(
                Run {
                    fragmentation: AnyFragmentation::OneAryTree(fragmentation),
                    actions,
                    n_members,
                },
            )
        },
        FragmentationTypeName::LinkedList => {
            let (mut fragmentation, mut actions) = LinkedListFragmentation::new(
                n_fragments,
                max_cache_element,
                highest_date,
                lowest_date,
                server_address,
                date_field,
                tree_id,
            );
            let ghost row = fragmentation@.fragments;
            let ghost making = actions@;
            proof {
                lemma_first_row_is_new(n_fragments, max_cache_element, highest_date, lowest_date);
            }
            let mut filing = match fragmentation.insert_all(&members) {
                Ok(filing) => filing,
                Err(_) => {
                    return Err(Failure::of(ErrorKind::CacheFull));
                },
            };
            let ghost filed = filing@;
            let ghost filled = fragmentation@.fragments;
            let mut publishing = fragmentation.finalize();
            let ghost published = publishing@;
            actions.append(&mut filing);
            actions.append(&mut publishing);
            proof {
                let property = data_injection_config.date_field@;
                let server = data_injection_config.server_address@;
                assert(actions@ =~= (making + filed) + published);
                lemma_views_concat(making + filed, published);
                lemma_views_concat(making, filed);
                lemma_construction_writes_nothing(row, property, server);
                lemma_filing_all_accounts(row, member_views(members@));
                lemma_list_publication_accounts(filled, property, server);
                lemma_cached_nothing(row);
                lemma_account_closed(
                    action_outlines(making),
                    action_outlines(filed),
                    action_outlines(published),
                    cached(row),
                    cached(filled),
                    member_views(members@).to_multiset(),
                );
            }
            Ok(
                Run {
                    fragmentation: AnyFragmentation::LinkedList(fragmentation),
                    actions,
                    n_members,
                },
            )
        },
        FragmentationTypeName::Tree => {
            let depth = match dept {
                Some(depth) => depth,
                None => {
                    return Err(Failure::of(ErrorKind::CliInvalid));
                },
            };
            let (mut fragmentation, mut actions) = Tree::new(
                n_fragments,
                max_cache_element,
                highest_date,
                lowest_date,
                server_address,
                date_field,
                depth,
            );
            let ghost made = fragmentation@.fragments;
            let ghost making = actions@;
            proof {
                let row = first_row(n_fragments, max_cache_element, highest_date, lowest_date);
                lemma_all_new(made, max_cache_element);
                lemma_tree_outline_writes_nothing(
                    made,
                    n_fragments,
                    depth,
                    data_injection_config.date_field@,
                    data_injection_config.server_address@,
                );
                assert forall|i: int| 0 <= i < made.len() implies (#[trigger] made[i]).cache.len()
                    == 0 by {
                    assert(made[i].size == 0);
                }
                lemma_cached_nothing(made);
                assert forall|j: int| 0 <= j < members.len() implies has_destination(
                    made,
                    (#[trigger] members@[j]).date,
                ) by {
                    let date = members@[j].date;
                    assert(has_destination(row, date));
                    let i = choose|i: int|
                        0 <= i < row.len() && (#[trigger] row[i]).boundary.contains(date);
                    assert(made.take(n_fragments as int)[i] == row[i]);
                    assert(made[i].boundary.contains(date));
                }
                assert forall|i: int| 0 <= i < made.len() implies (#[trigger] blanked(made)[i])
                    == made[i] by {
                    assert(made[i].cache =~= Seq::<MemberView>::empty());
                }
                assert(blanked(made) =~= made);
            }
            let mut filing = match file_members(&mut fragmentation, &members) {
                Ok(filing) => filing,
                Err(e) => {
                    return Err(Failure::of(e));
                },
            };
            let ghost filed = filing@;
            let ghost filled = fragmentation@.fragments;
            proof {
                lemma_layout_flushed(filled);
            }
            let mut publishing = fragmentation.finalize();
            let ghost published = publishing@;
            actions.append(&mut filing);
            actions.append(&mut publishing);
            proof {
                assert(actions@ =~= (making + filed) + published);
                lemma_views_concat(making + filed, published);
                lemma_views_concat(making, filed);
                lemma_account_closed(
                    action_outlines(making),
                    action_outlines(filed),
                    action_outlines(published),
                    cached(made),
                    cached(filled),
                    member_views(members@).to_multiset(),
                );
                let laying = action_outlines(making);
                let all = action_outlines(actions@);
                assert(all =~= laying + (action_outlines(filed) + action_outlines(published)));
                assert(all.subrange(0, laying.len() as int) =~= laying);
            }
            Ok(Run { fragmentation: AnyFragmentation::Tree(fragmentation), actions, n_members })
        },
    }
}

} // verus!
