//! What the desktop commands hand back to the user interface.
use vstd::prelude::*;
use vstd::string::*;
use crate::order::{stable_sort, stable_sorted, text_lt, SortKey};
use crate::pipeline::{extension_of, PipelineOutput};

verus! {

/// The answer to a finished analysis: where its report is and how big it is.
pub struct AnalyzeResultPayload {
    pub report_path: String,
    pub nodes: usize,
    pub edges: usize,
}

/// The answer for a pipeline output.
pub fn payload_of(out: &PipelineOutput) -> (p: AnalyzeResultPayload)
    ensures
        p.report_path == out.report_path,
        p.nodes == out.nodes,
        p.edges == out.edges,
{
    AnalyzeResultPayload { report_path: out.report_path.clone(), nodes: out.nodes, edges: out.edges }
}

/// One report of the project's report directory.
pub struct ReportEntry {
    pub name: String,
    pub path: String,
    pub created_at: String,
}

/// Whether a file name has extension `ext`, as `Path::extension` tells it.
pub fn has_extension(file_name: &str, ext: &str) -> (r: bool)
    ensures
        r == (extension_of(file_name@) == Some(ext@)),
{
    let cs = crate::text::chars_of(file_name);
    let mut i: usize = cs.len();
    assert(file_name@.take(i as int) =~= file_name@);
    while i > 0 && cs[i - 1] != '.'
        invariant
            i <= cs@.len(),
            cs@ == file_name@,
            crate::semantic::last_index_of(file_name@, '.') == crate::semantic::last_index_of(file_name@.take(i as int), '.'),
        decreases i,
    {
        assert(file_name@.take(i as int).drop_last() == file_name@.take((i - 1) as int));
        i = i - 1;
    }
    if i == 0 {
        assert(file_name@.take(0) =~= Seq::<char>::empty());
        return false;
    }
    if i == 1 {
        return false;
    }
    let n = cs.len();
    let tail = crate::text::slice_of(&cs, i, n);
    assert(tail@ =~= file_name@.skip(i as int));
    let text = crate::text::string_of(tail.as_slice());
    crate::text::same_text(text.as_str(), ext)
}

/// Whether a file of the report directory is a report: its extension is `html`.
pub fn is_report_file(file_name: &str) -> (r: bool)
    ensures
        r == (extension_of(file_name@) == Some("html"@)),
{
    has_extension(file_name, "html")
}

impl SortKey for ReportEntry {
    /// Newer reports first: the names hold the time stamp, so the list
    /// goes by name, descending.
    open spec fn precedes(&self, other: &Self) -> bool {
        text_lt(other.name@, self.name@)
    }

    fn sorts_before(&self, other: &Self) -> (r: bool) {
        crate::order::text_less(&other.name, &self.name)
    }
}

/// The reports, by name in descending order.
pub fn sort_reports(entries: Vec<ReportEntry>) -> (out: Vec<ReportEntry>)
    ensures
        out@ == stable_sorted(entries@),
{
    stable_sort(entries)
}

/// The report list comes newest first: names in descending order.
pub proof fn law_reports_newest_first(entries: Seq<ReportEntry>)
    ensures
        forall|i: int, j: int| 0 <= i < j < stable_sorted(entries).len()
            ==> !text_lt(#[trigger] stable_sorted(entries)[i].name@, #[trigger] stable_sorted(entries)[j].name@),
{
    crate::order::lemma_text_key_desc_orders_well(entries, |r: ReportEntry| r.name@);
    crate::order::law_stable_sort_in_order(entries);
}

} // verus!
