//! The summary of a fragmentation, one entry per fragment.

use super::fragment::Boundary;
use vstd::prelude::*;

verus! {

/// What the summary says of one fragment.
#[derive(Clone, Copy, PartialEq, Eq, Debug)]
pub struct Report {
    /// The number of members that the fragment accepted; nothing for none.
    pub n_member: Option<usize>,
    /// The interval of dates that the fragment accepts.
    pub boundary: Boundary,
}

impl Report {
    /// The report of a fragment with that many members and that boundary.
    pub open spec fn of(size: usize, boundary: Boundary) -> Report {
        Report {
            n_member: if size == 0 {
                None
            } else {
                Some(size)
            },
            boundary,
        }
    }
}

/// The report of one fragment, under the name of its file.
#[derive(Debug, PartialEq, Eq)]
pub struct ReportEntry {
    /// The file of the fragment.
    pub filename: String,
    /// What the summary says of it.
    pub report: Report,
}

/// What a [`ReportEntry`] holds.
pub struct ReportEntryView {
    pub filename: Seq<char>,
    pub report: Report,
}

impl View for ReportEntry {
    type V = ReportEntryView;

    open spec fn view(&self) -> ReportEntryView {
        ReportEntryView { filename: self.filename@, report: self.report }
    }
}

impl Clone for ReportEntry {
    fn clone(&self) -> (r: Self)
        ensures
            r@ == self@,
    {
        ReportEntry { filename: self.filename.clone(), report: self.report }
    }
}

/// The views of a sequence of report entries.
pub open spec fn entry_views(entries: Seq<ReportEntry>) -> Seq<ReportEntryView> {
    entries.map_values(|e: ReportEntry| e@)
}

} // verus!
