//! The pure steps of the analysis pipeline: diagnostics, source excerpts,
//! labeling windows, report bookkeeping and update plans.
use vstd::prelude::*;
use vstd::string::*;
use crate::dsl::{Layer, Level, NodeKind, SourceRef, Visualization, VizNode};
use crate::order::{first_match, lemma_first_match_prefix, lemma_first_match_step, SortKey, stable_sort, stable_sorted, text_lt};
use crate::text::{chars_of, decimal, decimal_string, padded4_string, push_char, push_str, zero_padded};
use crate::ucm::{AnalysisError, SymbolKind, UnifiedCodeModel};

verus! {

// ---------------------------------------------------------------------------
// Compiler diagnostics.

/// How a diagnostic is shown: `file:line: message`, or `file: message` without a line.
pub open spec fn analysis_error_text(e: AnalysisError) -> Seq<char> {
    if e.start_line > 0 {
        e.file@ + ":"@ + decimal(e.start_line as nat) + ": "@ + e.message@
    } else {
        e.file@ + ": "@ + e.message@
    }
}

/// Formats one diagnostic for the user.
pub fn format_analysis_error(error: &AnalysisError) -> (s: String)
    ensures
        s@ == analysis_error_text(*error),
{
    let mut s = error.file.clone();
    if error.start_line > 0 {
        push_str(&mut s, ":");
        let n = decimal_string(error.start_line);
        push_str(&mut s, n.as_str());
    }
    push_str(&mut s, ": ");
    push_str(&mut s, error.message.as_str());
    s
}

/// The diagnostics of the model that concern `file`, in model order.
pub open spec fn errors_in(errors: Seq<AnalysisError>, file: Seq<char>) -> Seq<AnalysisError>
    decreases errors.len(),
{
    if errors.len() == 0 {
        seq![]
    } else {
        errors_in(errors.drop_last(), file) + if errors.last().file@ == file {
            seq![errors.last()]
        } else {
            Seq::<AnalysisError>::empty()
        }
    }
}

/// The diagnostics of the model for one file.
pub fn errors_for_file(model: &UnifiedCodeModel, file: &str) -> (out: Vec<AnalysisError>)
    ensures
        out@ == errors_in(model.errors@, file@),
{
    let f = file.to_owned();
    let errs = &model.errors;
    let mut out: Vec<AnalysisError> = Vec::new();
    let mut i: usize = 0;
    while i < errs.len()
        invariant
            0 <= i <= errs@.len(),
            errs == &model.errors,
            f@ == file@,
            out@ == errors_in(errs@.take(i as int), file@),
        decreases errs@.len() - i,
    {
        assert(errs@.take((i + 1) as int).drop_last() == errs@.take(i as int));
        if errs[i].file == f {
            out.push(errs[i].clone());
        }
        i = i + 1;
        assert(out@ =~= errors_in(errs@.take(i as int), file@));
    }
    assert(errs@.take(errs@.len() as int) == errs@);
    out
}

/// `ls` joined with `sep` between consecutive elements.
pub open spec fn joined(ls: Seq<Seq<char>>, sep: Seq<char>) -> Seq<char>
    decreases ls.len(),
{
    if ls.len() == 0 {
        seq![]
    } else if ls.len() == 1 {
        ls[0]
    } else {
        joined(ls.drop_last(), sep) + sep + ls.last()
    }
}

/// Appends `piece` to a text that holds the first `k` pieces joined by `sep`.
pub fn push_joined(out: &mut String, sep: &str, piece: &str, first: bool, Ghost(done): Ghost<Seq<Seq<char>>>)
    requires
        old(out)@ == joined(done, sep@),
        first == (done.len() == 0),
    ensures
        final(out)@ == joined(done.push(piece@), sep@),
{
    if !first {
        push_str(out, sep);
    }
    push_str(out, piece);
    assert(done.push(piece@).drop_last() == done);
    if first {
        assert(old(out)@ =~= Seq::<char>::empty());
        assert(final(out)@ =~= piece@);
    }
}

/// The summary shown on a compile error node: every diagnostic, one per line.
pub open spec fn diagnostics_text(errors: Seq<AnalysisError>) -> Seq<char> {
    joined(errors.map_values(|e: AnalysisError| analysis_error_text(e)), "\n"@)
}

/// The file diagram shown instead of an analysis when `file` does not compile:
/// one error node, placed at the first diagnostic, listing all of them.
pub fn compile_error_visualization(file: &str, _source: &str, errors: &Vec<AnalysisError>) -> (viz: Visualization)
    ensures
        viz.title@ == file@,
        viz.level == Level::File,
        viz.edges@.len() == 0,
        viz.nodes@.len() == 1,
        ({
            let n = viz.nodes@[0];
            &&& n.id@ == "error:"@ + file@
            &&& n.kind == NodeKind::Error
            &&& n.label@ == "Ошибка компиляции"@
            &&& n.layer == Layer::Flow
            &&& n.source matches Some(src) && src.file@ == file@
                && src.start_line == (if errors@.len() > 0 { errors@[0].start_line } else { 1 })
                && src.end_line == (if errors@.len() > 0 { errors@[0].end_line } else { 1 })
            &&& n.summary matches Some(s) && s@ == diagnostics_text(errors@)
            &&& n.element_type is None
            &&& n.symbol is None
            &&& n.coverage_ids@.len() == 0
            &&& n.group_id is None
            &&& n.tests is None
            &&& n.confidence is None
            &&& n.children@.len() == 0
            &&& n.branches@.len() == 0
            &&& n.data_in@.len() == 0
            &&& n.data_out@.len() == 0
            &&& n.effects@.len() == 0
            &&& n.cross_refs@.len() == 0
        }),
{
    let mut summary = String::new();
    let mut i: usize = 0;
    while i < errors.len()
        invariant
            0 <= i <= errors@.len(),
            summary@ == joined(errors@.take(i as int).map_values(|e: AnalysisError| analysis_error_text(e)), "\n"@),
        decreases errors@.len() - i,
    {
        let line = format_analysis_error(&errors[i]);
        push_joined(&mut summary, "\n", line.as_str(), i == 0, Ghost(errors@.take(i as int).map_values(|e: AnalysisError| analysis_error_text(e))));
        assert(errors@.take((i + 1) as int).map_values(|e: AnalysisError| analysis_error_text(e))
            =~= errors@.take(i as int).map_values(|e: AnalysisError| analysis_error_text(e)).push(line@));
        i = i + 1;
    }
    assert(errors@.take(errors@.len() as int) == errors@);
    let (start, end) = if errors.len() > 0 { (errors[0].start_line, errors[0].end_line) } else { (1, 1) };
    let mut id = String::from_str("error:");
    push_str(&mut id, file);
    let node = VizNode {
        id,
        kind: NodeKind::Error,
        label: String::from_str("Ошибка компиляции"),
        layer: Layer::Flow,
        source: Some(SourceRef { file: file.to_owned(), start_line: start, end_line: end }),
        element_type: None,
        symbol: None,
        summary: Some(summary),
        coverage_ids: Vec::new(),
        group_id: None,
        tests: None,
        confidence: None,
        children: Vec::new(),
        branches: Vec::new(),
        data_in: Vec::new(),
        data_out: Vec::new(),
        effects: Vec::new(),
        cross_refs: Vec::new(),
    };
    let mut nodes = Vec::new();
    nodes.push(node);
    Visualization { title: file.to_owned(), level: Level::File, nodes, edges: Vec::new() }
}


// ---------------------------------------------------------------------------
// Source excerpts.

/// A line without the `\r` of a `\r\n` ending.
pub open spec fn strip_cr(line: Seq<char>) -> Seq<char> {
    if line.len() > 0 && line.last() == '\r' { line.drop_last() } else { line }
}

pub proof fn lemma_first_match_in_range<A>(s: Seq<A>, p: spec_fn(A) -> bool)
    ensures
        first_match(s, p) matches Some(i) ==> 0 <= i < s.len() && p(s[i]),
    decreases s.len(),
{
    if s.len() > 0 {
        lemma_first_match_in_range(s.drop_last(), p);
    }
}

/// The lines of a text, as `str::lines` gives them: split at `\n`, without a
/// `\r` before it, and without an empty piece after a final `\n`.
pub open spec fn text_lines(s: Seq<char>) -> Seq<Seq<char>>
    decreases s.len(),
{
    if s.len() == 0 {
        seq![]
    } else {
        proof {
            lemma_first_match_in_range(s, |c: char| c == '\n');
        }
        match first_match(s, |c: char| c == '\n') {
            None => seq![s],
            Some(i) => seq![strip_cr(s.take(i))] + text_lines(s.skip(i + 1)),
        }
    }
}

fn strip_cr_of(cs: &Vec<char>, from: usize, to: usize) -> (out: String)
    requires
        from <= to <= cs@.len(),
    ensures
        out@ == strip_cr(cs@.subrange(from as int, to as int)),
{
    let stop = if to > from && cs[to - 1] == '\r' { to - 1 } else { to };
    let piece = crate::text::slice_of(cs, from, stop);
    assert(piece@ =~= strip_cr(cs@.subrange(from as int, to as int)));
    crate::text::string_of(piece.as_slice())
}

/// The lines of a text.
pub fn lines_of(s: &str) -> (out: Vec<String>)
    ensures
        crate::validate::views(out@) == text_lines(s@),
{
    let cs = chars_of(s);
    let mut out: Vec<String> = Vec::new();
    let mut p: usize = 0;
    let ghost nl = |c: char| c == '\n';
    assert(s@.skip(0) =~= s@);
    while p < cs.len()
        invariant
            p <= cs@.len(),
            cs@ == s@,
            nl == (|c: char| c == '\n'),
            text_lines(s@) == crate::validate::views(out@) + text_lines(s@.skip(p as int)),
        decreases cs@.len() - p,
    {
        let ghost t = s@.skip(p as int);
        let mut q: usize = p;
        while q < cs.len() && cs[q] != '\n'
            invariant
                p <= q <= cs@.len(),
                cs@ == s@,
                t == s@.skip(p as int),
                nl == (|c: char| c == '\n'),
                first_match(t.take(q - p), nl) is None,
            decreases cs@.len() - q,
        {
            proof {
                lemma_first_match_step(t, nl, (q - p) as int);
            }
            q = q + 1;
        }
        let ghost before = crate::validate::views(out@);
        if q < cs.len() {
            let line = strip_cr_of(&cs, p, q);
            out.push(line);
            assert(crate::validate::views(out@) =~= before.push(line@));
            proof {
                lemma_first_match_prefix(t, nl, (q - p) as int);
                assert(t.take((q - p) as int) =~= cs@.subrange(p as int, q as int));
                assert(t.skip((q - p) + 1) =~= s@.skip(q + 1));
            }
            p = q + 1;
            assert(text_lines(s@) =~= crate::validate::views(out@) + text_lines(s@.skip(p as int)));
        } else {
            let line = crate::text::string_of(crate::text::slice_of(&cs, p, q).as_slice());
            out.push(line);
            assert(crate::validate::views(out@) =~= before.push(line@));
            proof {
                assert(t.take((q - p) as int) =~= t);
                assert(t =~= cs@.subrange(p as int, q as int));
                assert(t.len() > 0);
                assert(text_lines(t) == seq![t]);
                assert(s@.skip(q as int) =~= Seq::<char>::empty());
            }
            p = q;
            assert(text_lines(s@) =~= crate::validate::views(out@) + text_lines(s@.skip(p as int)));
        }
    }
    assert(s@.skip(cs@.len() as int) =~= Seq::<char>::empty());
    assert(crate::validate::views(out@) =~= crate::validate::views(out@) + Seq::<Seq<char>>::empty());
    out
}


/// A line as shown to the labeler: its number padded to four digits, ` | `, the text.
pub open spec fn numbered_line(n: nat, line: Seq<char>) -> Seq<char> {
    zero_padded(decimal(n), 4) + " | "@ + line
}

/// The numbered lines `start..=end` (counted from one) of `ls`.
pub open spec fn numbered_lines(ls: Seq<Seq<char>>, start: u32, end: u32) -> Seq<Seq<char>>
    decreases ls.len(),
{
    if ls.len() == 0 {
        seq![]
    } else {
        let n = ls.len();
        numbered_lines(ls.drop_last(), start, end) + if start <= n && n <= end {
            seq![numbered_line(n, ls.last())]
        } else {
            Seq::<Seq<char>>::empty()
        }
    }
}

/// Lines `start..=end` of a source text, numbered, one per line.
pub open spec fn numbered_text(source: Seq<char>, start: u32, end: u32) -> Seq<char> {
    joined(numbered_lines(text_lines(source), start, end), "\n"@)
}

fn numbered_line_of(n: u32, line: &String) -> (s: String)
    ensures
        s@ == numbered_line(n as nat, line@),
{
    let mut s = padded4_string(n);
    push_str(&mut s, " | ");
    push_str(&mut s, line.as_str());
    s
}

/// The text has few enough lines to number them with `u32`.
pub open spec fn countable_lines(source: Seq<char>) -> bool {
    text_lines(source).len() <= u32::MAX
}

/// Lines `start..=end` of a source text, each prefixed with its number.
pub fn numbered_source(source: &str, start_line: u32, end_line: u32) -> (s: String)
    requires
        countable_lines(source@),
    ensures
        s@ == numbered_text(source@, start_line, end_line),
{
    let lines = lines_of(source);
    let ghost ls = text_lines(source@);
    let mut s = String::new();
    let mut count: usize = 0;
    let mut i: usize = 0;
    while i < lines.len()
        invariant
            0 <= i <= lines@.len(),
            crate::validate::views(lines@) == ls,
            ls.len() <= u32::MAX,
            count == numbered_lines(ls.take(i as int), start_line, end_line).len(),
            count <= i,
            s@ == joined(numbered_lines(ls.take(i as int), start_line, end_line), "\n"@),
        decreases lines@.len() - i,
    {
        assert(ls.take((i + 1) as int).drop_last() == ls.take(i as int));
        assert(ls.take((i + 1) as int).last() == lines@[i as int]@);
        let n: u32 = (i + 1) as u32;
        assert(n as nat == ls.take((i + 1) as int).len());
        assert(numbered_lines(ls.take((i + 1) as int), start_line, end_line) == numbered_lines(ls.take(i as int), start_line, end_line) + if start_line <= n && n <= end_line {
            seq![numbered_line(n as nat, lines@[i as int]@)]
        } else {
            Seq::<Seq<char>>::empty()
        });
        if start_line <= n && n <= end_line {
            let line = numbered_line_of(n, &lines[i]);
            push_joined(&mut s, "\n", line.as_str(), count == 0, Ghost(numbered_lines(ls.take(i as int), start_line, end_line)));
            count = count + 1;
            assert(numbered_lines(ls.take((i + 1) as int), start_line, end_line) =~= numbered_lines(ls.take(i as int), start_line, end_line).push(line@));
        } else {
            assert(numbered_lines(ls.take((i + 1) as int), start_line, end_line) =~= numbered_lines(ls.take(i as int), start_line, end_line));
        }
        i = i + 1;
    }
    assert(ls.take(lines@.len() as int) == ls);
    s
}

/// The numbered lines of a node's range, or nothing for a node without one.
pub fn source_for_node(source: &str, source_ref: Option<&SourceRef>) -> (s: String)
    requires
        countable_lines(source@),
    ensures
        s@ == match source_ref {
            Some(r) => numbered_text(source@, r.start_line, r.end_line),
            None => Seq::<char>::empty(),
        },
{
    match source_ref {
        Some(r) => numbered_source(source, r.start_line, r.end_line),
        None => String::new(),
    }
}

/// A node as the labeler sees it.
pub struct LabelNode {
    pub id: String,
    pub kind: String,
    pub source: Option<SourceRef>,
    pub coverage_ids: Vec<String>,
    pub children: Vec<String>,
}

/// The line ranges of the labeled nodes that cover code, already done.
pub open spec fn done_ranges(nodes: Seq<LabelNode>, done: Seq<Seq<char>>) -> Seq<(u32, u32)>
    decreases nodes.len(),
{
    if nodes.len() == 0 {
        seq![]
    } else {
        let n = nodes.last();
        done_ranges(nodes.drop_last(), done) + if done.contains(n.id@) && n.coverage_ids@.len() > 0
            && n.source is Some {
            seq![(n.source->0.start_line, n.source->0.end_line)]
        } else {
            Seq::<(u32, u32)>::empty()
        }
    }
}

/// Line `n` lies in one of the ranges.
pub open spec fn in_ranges(ranges: Seq<(u32, u32)>, n: nat) -> bool {
    exists|k: int| 0 <= k < ranges.len() && #[trigger] ranges[k].0 <= n && n <= ranges[k].1
}

/// The numbered lines `start..=end`, each marked done or still to come.
pub open spec fn marked_lines(ls: Seq<Seq<char>>, start: u32, end: u32, ranges: Seq<(u32, u32)>) -> Seq<Seq<char>>
    decreases ls.len(),
{
    if ls.len() == 0 {
        seq![]
    } else {
        let n = ls.len();
        marked_lines(ls.drop_last(), start, end, ranges) + if start <= n && n <= end {
            seq![(if in_ranges(ranges, n) { "[СДЕЛАНО] "@ } else { "[ДАЛЬШЕ] "@ }) + numbered_line(n, ls.last())]
        } else {
            Seq::<Seq<char>>::empty()
        }
    }
}

pub open spec fn no_source_note() -> Seq<char> {
    "(Исходный текст не приложен: используйте точные source-диапазоны.)"@
}

/// The source excerpt for a labeling window: a note when no source is
/// attached; the numbered lines; and, once some covering nodes are done, each
/// line marked as done or still to come.
pub open spec fn window_text(
    source: Seq<char>,
    start: u32,
    end: u32,
    done: Seq<Seq<char>>,
    nodes: Seq<LabelNode>,
) -> Seq<char> {
    if source.len() == 0 {
        no_source_note()
    } else if done_ranges(nodes, done).len() == 0 {
        numbered_text(source, start, end)
    } else {
        joined(marked_lines(text_lines(source), start, end, done_ranges(nodes, done)), "\n"@)
    }
}

fn in_ranges_of(ranges: &Vec<(u32, u32)>, n: u32) -> (b: bool)
    ensures
        b == in_ranges(ranges@, n as nat),
{
    let mut k: usize = 0;
    while k < ranges.len()
        invariant
            0 <= k <= ranges@.len(),
            forall|j: int| 0 <= j < k ==> !(ranges@[j].0 <= n && n <= ranges@[j].1),
        decreases ranges@.len() - k,
    {
        if ranges[k].0 <= n && n <= ranges[k].1 {
            return true;
        }
        k = k + 1;
    }
    false
}

/// Builds the source excerpt of a labeling window.
pub fn source_window(
    source: &str,
    start_line: u32,
    end_line: u32,
    done_ids: &Vec<String>,
    nodes: &Vec<LabelNode>,
) -> (s: String)
    requires
        countable_lines(source@),
    ensures
        s@ == window_text(source@, start_line, end_line, crate::validate::views(done_ids@), nodes@),
{
    if source.unicode_len() == 0 {
        return String::from_str("(Исходный текст не приложен: используйте точные source-диапазоны.)");
    }
    let ghost done = crate::validate::views(done_ids@);
    let mut ranges: Vec<(u32, u32)> = Vec::new();
    let mut i: usize = 0;
    while i < nodes.len()
        invariant
            0 <= i <= nodes@.len(),
            done == crate::validate::views(done_ids@),
            ranges@ == done_ranges(nodes@.take(i as int), done),
        decreases nodes@.len() - i,
    {
        assert(nodes@.take((i + 1) as int).drop_last() == nodes@.take(i as int));
        let n = &nodes[i];
        if n.coverage_ids.len() > 0 && crate::validate::contains_text(done_ids, &n.id) {
            if let Some(src) = &n.source {
                ranges.push((src.start_line, src.end_line));
            }
        }
        i = i + 1;
        assert(ranges@ =~= done_ranges(nodes@.take(i as int), done));
    }
    assert(nodes@.take(nodes@.len() as int) == nodes@);
    if ranges.len() == 0 {
        return numbered_source(source, start_line, end_line);
    }
    let lines = lines_of(source);
    let ghost ls = text_lines(source@);
    let mut s = String::new();
    let mut count: usize = 0;
    let mut i: usize = 0;
    while i < lines.len()
        invariant
            0 <= i <= lines@.len(),
            crate::validate::views(lines@) == ls,
            ls.len() <= u32::MAX,
            count == marked_lines(ls.take(i as int), start_line, end_line, ranges@).len(),
            count <= i,
            s@ == joined(marked_lines(ls.take(i as int), start_line, end_line, ranges@), "\n"@),
        decreases lines@.len() - i,
    {
        assert(ls.take((i + 1) as int).drop_last() == ls.take(i as int));
        assert(ls.take((i + 1) as int).last() == lines@[i as int]@);
        let n: u32 = (i + 1) as u32;
        assert(n as nat == ls.take((i + 1) as int).len());
        if start_line <= n && n <= end_line {
            let mut line = if in_ranges_of(&ranges, n) {
                String::from_str("[СДЕЛАНО] ")
            } else {
                String::from_str("[ДАЛЬШЕ] ")
            };
            let body = numbered_line_of(n, &lines[i]);
            push_str(&mut line, body.as_str());
            push_joined(&mut s, "\n", line.as_str(), count == 0, Ghost(marked_lines(ls.take(i as int), start_line, end_line, ranges@)));
            count = count + 1;
            assert(marked_lines(ls.take((i + 1) as int), start_line, end_line, ranges@) =~= marked_lines(ls.take(i as int), start_line, end_line, ranges@).push(line@));
        } else {
            assert(marked_lines(ls.take((i + 1) as int), start_line, end_line, ranges@) =~= marked_lines(ls.take(i as int), start_line, end_line, ranges@));
        }
        i = i + 1;
    }
    assert(ls.take(lines@.len() as int) == ls);
    s
}


// ---------------------------------------------------------------------------
// The nodes handed to the labeler.

/// A node and its descendants, in pre-order.
pub open spec fn tree_flat(n: VizNode) -> Seq<VizNode>
    decreases n,
{
    seq![n] + forest_flat(n.children@)
}

/// The nodes of a forest, in pre-order.
pub open spec fn forest_flat(ns: Seq<VizNode>) -> Seq<VizNode>
    decreases ns,
{
    if ns.len() == 0 {
        seq![]
    } else {
        forest_flat(ns.drop_last()) + tree_flat(ns.last())
    }
}

/// The lower-case name of a node kind.
pub open spec fn kind_name(k: NodeKind) -> Seq<char> {
    match k {
        NodeKind::Action => "action"@,
        NodeKind::Decision => "decision"@,
        NodeKind::Call => "call"@,
        NodeKind::Input => "input"@,
        NodeKind::Output => "output"@,
        NodeKind::State => "state"@,
        NodeKind::Storage => "storage"@,
        NodeKind::External => "external"@,
        NodeKind::Loop => "loop"@,
        NodeKind::Error => "error"@,
        NodeKind::Async => "async"@,
        NodeKind::Group => "group"@,
    }
}

fn kind_name_of(k: NodeKind) -> (s: String)
    ensures
        s@ == kind_name(k),
{
    match k {
        NodeKind::Action => String::from_str("action"),
        NodeKind::Decision => String::from_str("decision"),
        NodeKind::Call => String::from_str("call"),
        NodeKind::Input => String::from_str("input"),
        NodeKind::Output => String::from_str("output"),
        NodeKind::State => String::from_str("state"),
        NodeKind::Storage => String::from_str("storage"),
        NodeKind::External => String::from_str("external"),
        NodeKind::Loop => String::from_str("loop"),
        NodeKind::Error => String::from_str("error"),
        NodeKind::Async => String::from_str("async"),
        NodeKind::Group => String::from_str("group"),
    }
}

/// `l` is what the labeler is told about node `n`.
pub open spec fn label_view(n: VizNode, l: LabelNode) -> bool {
    &&& l.id == n.id
    &&& l.kind@ == kind_name(n.kind)
    &&& l.source == n.source
    &&& crate::validate::views(l.coverage_ids@) == crate::validate::views(n.coverage_ids@)
    &&& crate::validate::views(l.children@) == n.children@.map_values(|c: VizNode| c.id@)
}

/// Where a node is ordered for labeling: by its source range, then its id;
/// nodes without a source come first.
pub struct LabelOrder {
    pub source: Option<SourceRef>,
    pub id: String,
    pub index: usize,
}

impl SortKey for LabelOrder {
    open spec fn precedes(&self, other: &Self) -> bool {
        match (self.source, other.source) {
            (None, Some(_)) => true,
            (Some(a), Some(b)) => a.start_line < b.start_line || (a.start_line == b.start_line && (a.end_line
                < b.end_line || (a.end_line == b.end_line && text_lt(self.id@, other.id@)))),
            _ => false,
        }
    }

    fn sorts_before(&self, other: &Self) -> (r: bool) {
        match (&self.source, &other.source) {
            (None, Some(_)) => true,
            (Some(a), Some(b)) => a.start_line < b.start_line || (a.start_line == b.start_line && (a.end_line
                < b.end_line || (a.end_line == b.end_line && crate::order::text_less(&self.id, &other.id)))),
            _ => false,
        }
    }
}

pub open spec fn labels_match(flat: Seq<VizNode>, labels: Seq<LabelNode>) -> bool {
    &&& flat.len() == labels.len()
    &&& forall|i: int| 0 <= i < flat.len() ==> label_view(#[trigger] flat[i], labels[i])
}

pub open spec fn orders_match(flat: Seq<VizNode>, keys: Seq<LabelOrder>) -> bool {
    &&& flat.len() == keys.len()
    &&& forall|i: int| 0 <= i < flat.len() ==> #[trigger] keys[i] == (LabelOrder { source: flat[i].source, id: flat[i].id, index: i as usize })
}

fn label_of(n: &VizNode) -> (l: LabelNode)
    ensures
        label_view(*n, l),
{
    let mut children: Vec<String> = Vec::new();
    let mut i: usize = 0;
    while i < n.children.len()
        invariant
            0 <= i <= n.children@.len(),
            crate::validate::views(children@) == n.children@.take(i as int).map_values(|c: VizNode| c.id@),
        decreases n.children@.len() - i,
    {
        let ghost prev = crate::validate::views(children@);
        children.push(n.children[i].id.clone());
        assert(crate::validate::views(children@) =~= prev.push(n.children@[i as int].id@));
        assert(n.children@.take((i + 1) as int).map_values(|c: VizNode| c.id@) =~= n.children@.take(i as int).map_values(|c: VizNode| c.id@).push(n.children@[i as int].id@));
        i = i + 1;
    }
    assert(n.children@.take(n.children@.len() as int) == n.children@);
    let coverage = n.coverage_ids.clone();
    assert(crate::validate::views(coverage@) =~= crate::validate::views(n.coverage_ids@));
    LabelNode { id: n.id.clone(), kind: kind_name_of(n.kind), source: n.source.clone(), coverage_ids: coverage, children }
}

fn flatten_labels(ns: &Vec<VizNode>, labels: &mut Vec<LabelNode>, keys: &mut Vec<LabelOrder>, Ghost(prefix): Ghost<Seq<VizNode>>)
    requires
        labels_match(prefix, old(labels)@),
        orders_match(prefix, old(keys)@),
        prefix.len() + forest_flat(ns@).len() <= usize::MAX,
    ensures
        labels_match(prefix + forest_flat(ns@), final(labels)@),
        orders_match(prefix + forest_flat(ns@), final(keys)@),
    decreases ns@,
{
    let mut i: usize = 0;
    proof {
        assert(prefix + forest_flat(ns@.take(0)) =~= prefix);
        lemma_forest_flat_prefix_len(ns@, 0);
    }
    while i < ns.len()
        invariant
            0 <= i <= ns@.len(),
            prefix.len() + forest_flat(ns@).len() <= usize::MAX,
            labels_match(prefix + forest_flat(ns@.take(i as int)), labels@),
            orders_match(prefix + forest_flat(ns@.take(i as int)), keys@),
        decreases ns@.len() - i,
    {
        let ghost before = prefix + forest_flat(ns@.take(i as int));
        assert(ns@.take((i + 1) as int).drop_last() == ns@.take(i as int));
        assert(ns@.take((i + 1) as int).last() == ns@[i as int]);
        proof {
            lemma_forest_flat_prefix_len(ns@, i as int + 1);
        }
        let n = &ns[i];
        let pos = labels.len();
        labels.push(label_of(n));
        keys.push(LabelOrder { source: n.source.clone(), id: n.id.clone(), index: pos });
        let ghost with_node = before.push(*n);
        assert(labels_match(with_node, labels@));
        assert(orders_match(with_node, keys@));
        assert(decreases_to!(ns@ => ns@[i as int]));
        assert(forest_flat(ns@.take((i + 1) as int)) == forest_flat(ns@.take(i as int)) + tree_flat(ns@[i as int]));
        assert(tree_flat(ns@[i as int]) == seq![ns@[i as int]] + forest_flat(ns@[i as int].children@));
        flatten_labels(&n.children, labels, keys, Ghost(with_node));
        assert(with_node + forest_flat(n.children@) =~= prefix + forest_flat(ns@.take((i + 1) as int)));
        i = i + 1;
    }
    assert(ns@.take(ns@.len() as int) == ns@);
}

proof fn lemma_forest_flat_prefix_len(ns: Seq<VizNode>, i: int)
    requires
        0 <= i <= ns.len(),
    ensures
        forest_flat(ns.take(i)).len() <= forest_flat(ns).len(),
    decreases ns.len(),
{
    if i < ns.len() {
        assert(ns.drop_last().take(i) == ns.take(i));
        lemma_forest_flat_prefix_len(ns.drop_last(), i);
    } else {
        assert(ns.take(i) == ns);
    }
}

fn copy_label(l: &LabelNode) -> (r: LabelNode)
    ensures
        r.id == l.id,
        r.kind == l.kind,
        r.source == l.source,
        crate::validate::views(r.coverage_ids@) == crate::validate::views(l.coverage_ids@),
        crate::validate::views(r.children@) == crate::validate::views(l.children@),
{
    let coverage = l.coverage_ids.clone();
    assert(crate::validate::views(coverage@) =~= crate::validate::views(l.coverage_ids@));
    let children = l.children.clone();
    assert(crate::validate::views(children@) =~= crate::validate::views(l.children@));
    LabelNode { id: l.id.clone(), kind: l.kind.clone(), source: l.source.clone(), coverage_ids: coverage, children }
}

/// The order in which nodes are handed to the labeler.
pub open spec fn label_order(ns: Seq<VizNode>) -> Seq<LabelOrder> {
    let flat = forest_flat(ns);
    stable_sorted(Seq::new(flat.len(), |i: int| LabelOrder { source: flat[i].source, id: flat[i].id, index: i as usize }))
}

/// Every node of the tree, as the labeler sees it, ordered by source range then id.
pub fn label_nodes(nodes: &Vec<VizNode>) -> (out: Vec<LabelNode>)
    requires
        forest_flat(nodes@).len() <= usize::MAX,
    ensures
        out@.len() == forest_flat(nodes@).len(),
        forall|k: int| 0 <= k < out@.len() ==> label_view(
            forest_flat(nodes@)[#[trigger] label_order(nodes@)[k].index as int],
            out@[k],
        ),
{
    let mut labels: Vec<LabelNode> = Vec::new();
    let mut keys: Vec<LabelOrder> = Vec::new();
    assert(Seq::<VizNode>::empty() + forest_flat(nodes@) =~= forest_flat(nodes@));
    flatten_labels(nodes, &mut labels, &mut keys, Ghost(Seq::empty()));
    let ghost flat = forest_flat(nodes@);
    assert(keys@ =~= Seq::new(flat.len(), |i: int| LabelOrder { source: flat[i].source, id: flat[i].id, index: i as usize }));
    let order = stable_sort(keys);
    proof {
        crate::order::lemma_stable_sorted_members(keys@);
    }
    let mut out: Vec<LabelNode> = Vec::new();
    let mut k: usize = 0;
    while k < order.len()
        invariant
            0 <= k <= order@.len(),
            order@ == label_order(nodes@),
            order@.len() == flat.len(),
            flat == forest_flat(nodes@),
            forall|j: int| 0 <= j < order@.len() ==> keys@.contains(#[trigger] order@[j]),
            orders_match(flat, keys@),
            labels_match(flat, labels@),
            out@.len() == k,
            forall|j: int| 0 <= j < k ==> label_view(flat[#[trigger] order@[j].index as int], out@[j]),
        decreases order@.len() - k,
    {
        let ghost key = order@[k as int];
        assert(keys@.contains(key));
        let ghost at = choose|m: int| 0 <= m < keys@.len() && keys@[m] == key;
        assert(keys@[at] == key);
        assert(key.index as int == at);
        out.push(copy_label(&labels[order[k].index]));
        k = k + 1;
    }
    out
}

/// How many nodes a forest has.
pub fn count_nodes(nodes: &Vec<VizNode>) -> (n: usize)
    requires
        forest_flat(nodes@).len() <= usize::MAX,
    ensures
        n == forest_flat(nodes@).len(),
    decreases nodes@,
{
    let mut n: usize = 0;
    let mut i: usize = 0;
    while i < nodes.len()
        invariant
            0 <= i <= nodes@.len(),
            forest_flat(nodes@).len() <= usize::MAX,
            n == forest_flat(nodes@.take(i as int)).len(),
        decreases nodes@.len() - i,
    {
        assert(nodes@.take((i + 1) as int).drop_last() == nodes@.take(i as int));
        assert(nodes@.take((i + 1) as int).last() == nodes@[i as int]);
        proof {
            lemma_forest_flat_prefix_len(nodes@, i as int + 1);
        }
        assert(forest_flat(nodes@.take((i + 1) as int)) == forest_flat(nodes@.take(i as int)) + tree_flat(nodes@[i as int]));
        assert(tree_flat(nodes@[i as int]) == seq![nodes@[i as int]] + forest_flat(nodes@[i as int].children@));
        assert(decreases_to!(nodes@ => nodes@[i as int]));
        let inner = count_nodes(&nodes[i].children);
        n = n + 1 + inner;
        i = i + 1;
    }
    assert(nodes@.take(nodes@.len() as int) == nodes@);
    n
}


/// Node `n` has a source range in file `f`.
pub open spec fn points_into(n: VizNode, f: Seq<char>) -> bool {
    n.source matches Some(src) && src.file@ == f
}

/// The files the nodes of `flat` point into.
pub open spec fn files_of(flat: Seq<VizNode>) -> Set<Seq<char>> {
    Set::new(|f: Seq<char>| exists|i: int| 0 <= i < flat.len() && points_into(#[trigger] flat[i], f))
}

proof fn lemma_files_of_push(a: Seq<VizNode>, n: VizNode)
    ensures
        files_of(a.push(n)) == match n.source {
            Some(src) => files_of(a).insert(src.file@),
            None => files_of(a),
        },
{
    let b = a.push(n);
    let rhs = match n.source {
        Some(src) => files_of(a).insert(src.file@),
        None => files_of(a),
    };
    assert forall|f: Seq<char>| files_of(b).contains(f) implies rhs.contains(f) by {
        let i = choose|i: int| 0 <= i < b.len() && points_into(#[trigger] b[i], f);
        if i < a.len() {
            assert(a[i] == b[i]);
        }
    }
    assert forall|f: Seq<char>| rhs.contains(f) implies files_of(b).contains(f) by {
        if files_of(a).contains(f) {
            let i = choose|i: int| 0 <= i < a.len() && points_into(#[trigger] a[i], f);
            assert(b[i] == a[i]);
        } else {
            assert(b[a.len() as int] == n);
        }
    }
    assert(files_of(b) =~= rhs);
}

fn collect_files_into(ns: &Vec<VizNode>, out: &mut Vec<String>, Ghost(prefix): Ghost<Seq<VizNode>>)
    requires
        crate::order::strictly_sorted(crate::validate::views(old(out)@)),
        crate::validate::views(old(out)@).to_set() == files_of(prefix),
    ensures
        crate::order::strictly_sorted(crate::validate::views(final(out)@)),
        crate::validate::views(final(out)@).to_set() == files_of(prefix + forest_flat(ns@)),
    decreases ns@,
{
    let mut i: usize = 0;
    assert(prefix + forest_flat(ns@.take(0)) =~= prefix);
    while i < ns.len()
        invariant
            0 <= i <= ns@.len(),
            crate::order::strictly_sorted(crate::validate::views(out@)),
            crate::validate::views(out@).to_set() == files_of(prefix + forest_flat(ns@.take(i as int))),
        decreases ns@.len() - i,
    {
        let ghost before = prefix + forest_flat(ns@.take(i as int));
        assert(ns@.take((i + 1) as int).drop_last() == ns@.take(i as int));
        assert(ns@.take((i + 1) as int).last() == ns@[i as int]);
        let n = &ns[i];
        proof {
            lemma_files_of_push(before, *n);
        }
        if let Some(src) = &n.source {
            crate::order::insert_sorted_unique(out, src.file.clone());
        }
        let ghost with_node = before.push(*n);
        assert(decreases_to!(ns@ => ns@[i as int]));
        assert(forest_flat(ns@.take((i + 1) as int)) == forest_flat(ns@.take(i as int)) + tree_flat(ns@[i as int]));
        assert(tree_flat(ns@[i as int]) == seq![ns@[i as int]] + forest_flat(ns@[i as int].children@));
        collect_files_into(&n.children, out, Ghost(with_node));
        assert(with_node + forest_flat(n.children@) =~= prefix + forest_flat(ns@.take((i + 1) as int)));
        i = i + 1;
    }
    assert(ns@.take(ns@.len() as int) == ns@);
}

/// The files the nodes point into, in increasing order, each once.
pub fn collect_files(nodes: &Vec<VizNode>) -> (out: Vec<String>)
    ensures
        crate::order::strictly_sorted(crate::validate::views(out@)),
        crate::validate::views(out@).to_set() == files_of(forest_flat(nodes@)),
{
    let mut out: Vec<String> = Vec::new();
    assert(crate::validate::views(out@).to_set() =~= files_of(Seq::<VizNode>::empty()));
    collect_files_into(nodes, &mut out, Ghost(Seq::empty()));
    assert(Seq::<VizNode>::empty() + forest_flat(nodes@) =~= forest_flat(nodes@));
    out
}

// ---------------------------------------------------------------------------
// Labeling windows.

/// The first line of the window starting at node `cursor`.
pub open spec fn window_first_line(nodes: Seq<LabelNode>, cursor: int) -> u32 {
    match nodes[cursor].source {
        Some(src) => src.start_line,
        None => 1,
    }
}

/// The last line a window may reach: its first line plus the line budget of
/// the labeler's token budget (8192 tokens at 64 per line, at least 24).
pub open spec fn window_last_line(first: u32) -> u32 {
    if first as int + 127 > u32::MAX { u32::MAX } else { (first + 127) as u32 }
}

/// A node's line for windowing: its start line, or the window's first line.
pub open spec fn node_line(n: LabelNode, first: u32) -> u32 {
    match n.source {
        Some(src) => src.start_line,
        None => first,
    }
}

/// The window starting at `cursor` ends before the first later node whose
/// line lies beyond the window's last line.
pub open spec fn window_end(nodes: Seq<LabelNode>, cursor: int) -> int {
    let first = window_first_line(nodes, cursor);
    let last = window_last_line(first);
    let rest = nodes.skip(cursor + 1);
    match first_match(rest, |n: LabelNode| node_line(n, first) > last) {
        Some(k) => cursor + 1 + k,
        None => nodes.len() as int,
    }
}

/// The next labeling window: `(end, first line, last line)`.
pub fn label_window(nodes: &Vec<LabelNode>, cursor: usize) -> (r: (usize, u32, u32))
    requires
        cursor < nodes@.len(),
    ensures
        r.0 == window_end(nodes@, cursor as int),
        r.1 == window_first_line(nodes@, cursor as int),
        r.2 == window_last_line(r.1),
{
    let first = match &nodes[cursor].source {
        Some(src) => src.start_line,
        None => 1,
    };
    let last = first.saturating_add(127);
    let ghost rest = nodes@.skip(cursor + 1);
    let ghost p = |n: LabelNode| node_line(n, first) > last;
    assert(cursor < nodes.len());
    let mut end = cursor + 1;
    while end < nodes.len()
        invariant
            cursor < end <= nodes@.len(),
            first == window_first_line(nodes@, cursor as int),
            last == window_last_line(first),
            rest == nodes@.skip(cursor + 1),
            p == (|n: LabelNode| node_line(n, first) > last),
            first_match(rest.take(end - cursor - 1), p) is None,
        decreases nodes@.len() - end,
    {
        let line = match &nodes[end].source {
            Some(src) => src.start_line,
            None => first,
        };
        assert(rest[end - cursor - 1] == nodes@[end as int]);
        if line > last {
            proof {
                lemma_first_match_prefix(rest, p, end - cursor - 1);
            }
            return (end, first, last);
        }
        proof {
            lemma_first_match_step(rest, p, end - cursor - 1);
        }
        end = end + 1;
    }
    assert(rest.take(end - cursor - 1) =~= rest);
    (end, first, last)
}


// ---------------------------------------------------------------------------
// The labeling loop. The endpoint is asked for the labels of one window of
// nodes at a time; a refused answer is retried in the same conversation, at
// most three requests per window.

/// How many requests one window gets.
pub const LABEL_RETRY_LIMIT: usize = 3;

/// How the endpoint answered a labeling request.
pub enum LabelReply {
    /// The labels were accepted and applied.
    Applied,
    /// The labels came back but were refused, for this reason.
    Rejected(String),
    /// The request itself failed, for this reason.
    Failed(String),
}

/// What the labeling loop does next.
pub enum LabelAction {
    /// Ask for the labels of the current window.
    Ask,
    /// Ask again, after adding this note to the conversation.
    Retry(String),
    /// Give up with this error.
    Fail(String),
    /// Every node is labeled.
    Finish,
}

/// Where the labeling of a diagram stands: the current window
/// `cursor..end` with its lines, the requests made for it, and the ids
/// labeled so far, in increasing order.
pub struct LabelProgress {
    pub cursor: usize,
    pub end: usize,
    pub first_line: u32,
    pub last_line: u32,
    pub attempts: usize,
    pub done_ids: Vec<String>,
}

/// `p` describes the window that starts at its cursor.
pub open spec fn window_at(nodes: Seq<LabelNode>, p: LabelProgress) -> bool {
    &&& p.cursor < nodes.len()
    &&& p.end == window_end(nodes, p.cursor as int)
    &&& p.first_line == window_first_line(nodes, p.cursor as int)
    &&& p.last_line == window_last_line(p.first_line)
}

/// The ids of some label nodes.
pub open spec fn label_ids(nodes: Seq<LabelNode>) -> Seq<Seq<char>> {
    nodes.map_values(|n: LabelNode| n.id@)
}

/// The note added to the conversation after a refused answer.
pub open spec fn retry_note(reply: LabelReply) -> Seq<char> {
    match reply {
        LabelReply::Rejected(e) => "Ответ отклонён валидатором: "@ + e@ + ". Исправь только текущее окно и верни полный JSON."@,
        LabelReply::Failed(e) => "Запрос не принят: "@ + e@ + ". Верни корректный JSON для текущего окна."@,
        LabelReply::Applied => seq![],
    }
}

/// Why an answer was refused.
pub open spec fn reply_reason(reply: LabelReply) -> Seq<char> {
    match reply {
        LabelReply::Rejected(e) => e@,
        LabelReply::Failed(e) => e@,
        LabelReply::Applied => seq![],
    }
}

/// The error once a window has used up its requests.
pub open spec fn labeling_failure(first: u32, last: u32, reason: Seq<char>) -> Seq<char> {
    "strict labeling failed for lines "@ + decimal(first as nat) + "-"@ + decimal(last as nat) + ": "@ + reason
}

/// Every window holds at least one node and ends within the nodes, so each
/// applied window moves the cursor forward and labeling comes to an end.
pub proof fn law_window_advances(nodes: Seq<LabelNode>, cursor: int)
    requires
        0 <= cursor < nodes.len(),
    ensures
        cursor < window_end(nodes, cursor) <= nodes.len(),
{
    let first = window_first_line(nodes, cursor);
    let last = window_last_line(first);
    lemma_first_match_in_range(nodes.skip(cursor + 1), |n: LabelNode| node_line(n, first) > last);
}

/// Windows cover the nodes in order: when the ids done are those of the
/// nodes before a window, adding the window's ids gives the ids of the nodes
/// up to its end, so once the last window is applied every node is labeled.
pub proof fn law_windows_cover(nodes: Seq<LabelNode>, cursor: int, end: int)
    requires
        0 <= cursor <= end <= nodes.len(),
    ensures
        label_ids(nodes.take(cursor)).to_set().union(label_ids(nodes.subrange(cursor, end)).to_set())
            == label_ids(nodes.take(end)).to_set(),
{
    let a = label_ids(nodes.take(cursor));
    let b = label_ids(nodes.subrange(cursor, end));
    let c = label_ids(nodes.take(end));
    assert(c =~= a + b);
    vstd::seq_lib::seq_to_set_distributes_over_add(a, b);
}

/// Sets up the labeling of `nodes`: the first window, or nothing to do.
pub fn start_labeling(nodes: &Vec<LabelNode>) -> (r: (LabelProgress, LabelAction))
    ensures
        nodes@.len() == 0 ==> r.1 is Finish,
        nodes@.len() > 0 ==> r.1 is Ask && window_at(nodes@, r.0) && r.0.cursor == 0,
        r.0.attempts == 0,
        r.0.done_ids@.len() == 0,
{
    if nodes.len() == 0 {
        let p = LabelProgress { cursor: 0, end: 0, first_line: 1, last_line: 1, attempts: 0, done_ids: Vec::new() };
        return (p, LabelAction::Finish);
    }
    let (end, first, last) = label_window(nodes, 0);
    (LabelProgress { cursor: 0, end, first_line: first, last_line: last, attempts: 0, done_ids: Vec::new() }, LabelAction::Ask)
}

/// The loop's step after an answer for the current window: on success the
/// window's ids are done and the next window, if any, is asked for; on a
/// refusal the same window is asked again, until its requests are used up.
pub fn after_reply(nodes: &Vec<LabelNode>, progress: &mut LabelProgress, reply: LabelReply) -> (action: LabelAction)
    requires
        window_at(nodes@, *old(progress)),
        old(progress).attempts < LABEL_RETRY_LIMIT,
        crate::order::strictly_sorted(crate::validate::views(old(progress).done_ids@)),
    ensures
        crate::order::strictly_sorted(crate::validate::views(final(progress).done_ids@)),
        reply is Applied ==> {
            &&& crate::validate::views(final(progress).done_ids@).to_set()
                == crate::validate::views(old(progress).done_ids@).to_set()
                    .union(label_ids(nodes@.subrange(old(progress).cursor as int, old(progress).end as int)).to_set())
            &&& final(progress).cursor == old(progress).end
            &&& final(progress).attempts == 0
            &&& old(progress).end == nodes@.len() ==> action is Finish
            &&& old(progress).end < nodes@.len() ==> action is Ask && window_at(nodes@, *final(progress))
        },
        !(reply is Applied) ==> {
            &&& final(progress).done_ids == old(progress).done_ids
            &&& final(progress).cursor == old(progress).cursor
            &&& final(progress).end == old(progress).end
            &&& final(progress).first_line == old(progress).first_line
            &&& final(progress).last_line == old(progress).last_line
            &&& final(progress).attempts == old(progress).attempts + 1
            &&& final(progress).attempts < LABEL_RETRY_LIMIT ==> (action matches LabelAction::Retry(m) && m@ == retry_note(reply))
            &&& final(progress).attempts == LABEL_RETRY_LIMIT ==> (action matches LabelAction::Fail(m)
                && m@ == labeling_failure(old(progress).first_line, old(progress).last_line, reply_reason(reply)))
        },
{
    proof {
        law_window_advances(nodes@, progress.cursor as int);
    }
    match reply {
        LabelReply::Applied => {
            let ghost before = crate::validate::views(progress.done_ids@).to_set();
            let ghost w = label_ids(nodes@.subrange(progress.cursor as int, progress.end as int));
            let start = progress.cursor;
            let mut k: usize = progress.cursor;
            assert(w.take(0).to_set() =~= Set::<Seq<char>>::empty());
            while k < progress.end
                invariant
                    start <= k <= progress.end,
                    progress.end <= nodes@.len(),
                    start == progress.cursor,
                    w == label_ids(nodes@.subrange(start as int, progress.end as int)),
                    crate::order::strictly_sorted(crate::validate::views(progress.done_ids@)),
                    crate::validate::views(progress.done_ids@).to_set() == before.union(w.take(k - start).to_set()),
                decreases progress.end - k,
            {
                crate::order::insert_sorted_unique(&mut progress.done_ids, nodes[k].id.clone());
                assert(w.take(k - start + 1) == w.take(k - start).push(nodes@[k as int].id@));
                proof {
                    w.take(k - start).lemma_push_to_set_commute(nodes@[k as int].id@);
                }
                k = k + 1;
                assert(crate::validate::views(progress.done_ids@).to_set() =~= before.union(w.take(k - start).to_set()));
            }
            assert(w.take(progress.end - start) == w);
            progress.cursor = progress.end;
            progress.attempts = 0;
            if progress.cursor == nodes.len() {
                return LabelAction::Finish;
            }
            let (end, first, last) = label_window(nodes, progress.cursor);
            progress.end = end;
            progress.first_line = first;
            progress.last_line = last;
            LabelAction::Ask
        },
        LabelReply::Rejected(e) => {
            progress.attempts = progress.attempts + 1;
            if progress.attempts < LABEL_RETRY_LIMIT {
                let mut m = String::from_str("Ответ отклонён валидатором: ");
                push_str(&mut m, e.as_str());
                push_str(&mut m, ". Исправь только текущее окно и верни полный JSON.");
                LabelAction::Retry(m)
            } else {
                LabelAction::Fail(failure_message(progress.first_line, progress.last_line, e.as_str()))
            }
        },
        LabelReply::Failed(e) => {
            progress.attempts = progress.attempts + 1;
            if progress.attempts < LABEL_RETRY_LIMIT {
                let mut m = String::from_str("Запрос не принят: ");
                push_str(&mut m, e.as_str());
                push_str(&mut m, ". Верни корректный JSON для текущего окна.");
                LabelAction::Retry(m)
            } else {
                LabelAction::Fail(failure_message(progress.first_line, progress.last_line, e.as_str()))
            }
        },
    }
}

fn failure_message(first: u32, last: u32, reason: &str) -> (m: String)
    ensures
        m@ == labeling_failure(first, last, reason@),
{
    let mut m = String::from_str("strict labeling failed for lines ");
    let a = decimal_string(first);
    push_str(&mut m, a.as_str());
    push_str(&mut m, "-");
    let b = decimal_string(last);
    push_str(&mut m, b.as_str());
    push_str(&mut m, ": ");
    push_str(&mut m, reason);
    m
}

/// What one labeling request is made of, besides the source excerpt and the
/// nodes' tree: the ids expected back, those ids one per line, the ids
/// already done one per line (`нет` when none is), and the user message.
pub struct LabelRequest {
    pub expected_ids: Vec<String>,
    pub window_ids: String,
    pub done_text: String,
    pub user: String,
}

/// The text of the ids already done.
pub open spec fn done_list(done: Seq<Seq<char>>) -> Seq<char> {
    if done.len() == 0 { "нет"@ } else { joined(done, "\n"@) }
}

/// The user message of a request for `count` labels.
pub open spec fn window_request(count: nat) -> Seq<char> {
    "Опиши на русском каждый ID текущего окна. Верни ровно "@ + decimal(count) + " записей и не пропускай строки."@
}

/// The parts of the request for the current window.
pub fn label_request(nodes: &Vec<LabelNode>, progress: &LabelProgress) -> (r: LabelRequest)
    requires
        window_at(nodes@, *progress),
    ensures
        crate::validate::views(r.expected_ids@) == label_ids(nodes@.subrange(progress.cursor as int, progress.end as int)),
        r.window_ids@ == joined(label_ids(nodes@.subrange(progress.cursor as int, progress.end as int)), "\n"@),
        r.done_text@ == done_list(crate::validate::views(progress.done_ids@)),
        r.user@ == window_request((progress.end - progress.cursor) as nat),
{
    proof {
        law_window_advances(nodes@, progress.cursor as int);
    }
    let ghost w = label_ids(nodes@.subrange(progress.cursor as int, progress.end as int));
    let mut ids: Vec<String> = Vec::new();
    let mut text = String::new();
    let mut k: usize = progress.cursor;
    while k < progress.end
        invariant
            progress.cursor <= k <= progress.end,
            progress.end <= nodes@.len(),
            w == label_ids(nodes@.subrange(progress.cursor as int, progress.end as int)),
            crate::validate::views(ids@) == w.take(k - progress.cursor),
            text@ == joined(w.take(k - progress.cursor), "\n"@),
        decreases progress.end - k,
    {
        let id = nodes[k].id.clone();
        push_joined(&mut text, "\n", id.as_str(), k == progress.cursor, Ghost(w.take(k - progress.cursor)));
        assert(w.take(k - progress.cursor + 1) == w.take(k - progress.cursor).push(id@));
        ids.push(id);
        k = k + 1;
        assert(crate::validate::views(ids@) =~= w.take(k - progress.cursor));
    }
    assert(w.take(progress.end - progress.cursor) == w);
    let done = &progress.done_ids;
    let mut done_text = String::new();
    if done.len() == 0 {
        done_text = String::from_str("нет");
    } else {
        let ghost d = crate::validate::views(done@);
        let mut j: usize = 0;
        while j < done.len()
            invariant
                0 <= j <= done@.len(),
                d == crate::validate::views(done@),
                done_text@ == joined(d.take(j as int), "\n"@),
            decreases done@.len() - j,
        {
            push_joined(&mut done_text, "\n", done[j].as_str(), j == 0, Ghost(d.take(j as int)));
            assert(d.take((j + 1) as int) == d.take(j as int).push(done@[j as int]@));
            j = j + 1;
        }
        assert(d.take(done@.len() as int) == d);
    }
    let mut user = String::from_str("Опиши на русском каждый ID текущего окна. Верни ровно ");
    let count = crate::text::decimal_usize(progress.end - progress.cursor);
    push_str(&mut user, count.as_str());
    push_str(&mut user, " записей и не пропускай строки.");
    LabelRequest { expected_ids: ids, window_ids: text, done_text, user }
}

// ---------------------------------------------------------------------------
// Symbols for the function picker.

/// A function or method offered for a flow diagram.
pub struct SymbolInfo {
    pub id: String,
    pub name: String,
    pub package: String,
    pub file: String,
}

/// The indices of the model's functions and methods, in model order.
pub open spec fn function_indices(syms: Seq<crate::ucm::Symbol>) -> Seq<int>
    decreases syms.len(),
{
    if syms.len() == 0 {
        seq![]
    } else {
        function_indices(syms.drop_last()) + if syms.last().kind == SymbolKind::Function || syms.last().kind
            == SymbolKind::Method {
            seq![syms.len() - 1]
        } else {
            Seq::<int>::empty()
        }
    }
}

/// The picker's order: functions and methods, stably sorted by id.
pub open spec fn symbol_order(model: UnifiedCodeModel) -> Seq<crate::semantic::TextIndex> {
    stable_sorted(function_indices(model.symbols@).map_values(
        |i: int| crate::semantic::TextIndex { key: model.symbols@[i].id, index: i as usize },
    ))
}

pub open spec fn symbol_info_of(s: crate::ucm::Symbol, i: SymbolInfo) -> bool {
    i.id == s.id && i.name == s.name && i.package == s.package && i.file == s.source.file
}

/// The functions and methods of the model, sorted by id.
pub fn symbol_infos(model: &UnifiedCodeModel) -> (out: Vec<SymbolInfo>)
    ensures
        out@.len() == symbol_order(*model).len(),
        forall|k: int| 0 <= k < out@.len() ==> symbol_info_of(
            model.symbols@[#[trigger] symbol_order(*model)[k].index as int],
            out@[k],
        ),
{
    let syms = &model.symbols;
    let mut keys: Vec<crate::semantic::TextIndex> = Vec::new();
    let mut i: usize = 0;
    while i < syms.len()
        invariant
            0 <= i <= syms@.len(),
            syms == &model.symbols,
            keys@ == function_indices(syms@.take(i as int)).map_values(
                |j: int| crate::semantic::TextIndex { key: syms@[j].id, index: j as usize },
            ),
            forall|k: int| 0 <= k < keys@.len() ==> (#[trigger] keys@[k]).index < i,
        decreases syms@.len() - i,
    {
        assert(syms@.take((i + 1) as int).drop_last() == syms@.take(i as int));
        if syms[i].kind == SymbolKind::Function || syms[i].kind == SymbolKind::Method {
            keys.push(crate::semantic::TextIndex { key: syms[i].id.clone(), index: i });
        }
        i = i + 1;
        assert(keys@ =~= function_indices(syms@.take(i as int)).map_values(
            |j: int| crate::semantic::TextIndex { key: syms@[j].id, index: j as usize },
        ));
    }
    assert(syms@.take(syms@.len() as int) == syms@);
    let order = stable_sort(keys);
    proof {
        crate::order::lemma_stable_sorted_members(keys@);
    }
    let mut out: Vec<SymbolInfo> = Vec::new();
    let mut k: usize = 0;
    while k < order.len()
        invariant
            0 <= k <= order@.len(),
            order@ == symbol_order(*model),
            forall|j: int| 0 <= j < order@.len() ==> (#[trigger] order@[j]).index < model.symbols@.len(),
            out@.len() == k,
            forall|j: int| 0 <= j < k ==> symbol_info_of(model.symbols@[order@[j].index as int], #[trigger] out@[j]),
        decreases order@.len() - k,
    {
        let s = &model.symbols[order[k].index];
        out.push(SymbolInfo { id: s.id.clone(), name: s.name.clone(), package: s.package.clone(), file: s.source.file.clone() });
        k = k + 1;
    }
    out
}

// ---------------------------------------------------------------------------
// The file tree.

/// A source file of the project tree.
pub struct FileInfo {
    pub path: String,
    pub name: String,
    pub language: String,
}

/// Directories the file tree never descends into.
pub open spec fn skipped_dir(name: Seq<char>) -> bool {
    name == ".git"@ || name == ".graphloom"@ || name == "node_modules"@ || name == "target"@ || name == "dist"@
}

/// A file name's extension, as `Path::extension` gives it.
pub open spec fn extension_of(name: Seq<char>) -> Option<Seq<char>> {
    match crate::semantic::last_index_of(name, '.') {
        Some(i) => if i == 0 { None } else { Some(name.skip(i + 1)) },
        None => None,
    }
}

/// The language shown for an extension.
pub open spec fn language_of(ext: Seq<char>) -> Option<Seq<char>> {
    if ext == "go"@ {
        Some("go"@)
    } else if ext == "tsx"@ {
        Some("tsx"@)
    } else if ext == "ts"@ {
        Some("typescript"@)
    } else {
        None
    }
}

/// How the tree shows a file: under none of the skipped directories, with a
/// known extension; its path with `\\` turned into `/`.
pub open spec fn file_entry(rel_path: Seq<char>, components: Seq<Seq<char>>, name: Seq<char>) -> Option<(Seq<char>, Seq<char>, Seq<char>)> {
    if exists|i: int| 0 <= i < components.len() && skipped_dir(#[trigger] components[i]) {
        None
    } else {
        match extension_of(name) {
            None => None,
            Some(ext) => match language_of(ext) {
                None => None,
                Some(lang) => Some((crate::text::replaced(rel_path, "\\"@, "/"@), name, lang)),
            },
        }
    }
}

fn last_dot(cs: &Vec<char>) -> (r: Option<usize>)
    ensures
        match r {
            Some(i) => i < cs@.len() && crate::semantic::last_index_of(cs@, '.') == Some(i as int),
            None => crate::semantic::last_index_of(cs@, '.') is None,
        },
{
    let mut i: usize = cs.len();
    assert(cs@.take(i as int) =~= cs@);
    while i > 0 && cs[i - 1] != '.'
        invariant
            i <= cs@.len(),
            crate::semantic::last_index_of(cs@, '.') == crate::semantic::last_index_of(cs@.take(i as int), '.'),
        decreases i,
    {
        assert(cs@.take(i as int).drop_last() == cs@.take((i - 1) as int));
        i = i - 1;
    }
    if i == 0 {
        assert(cs@.take(0) =~= Seq::<char>::empty());
        None
    } else {
        Some(i - 1)
    }
}

/// Decides whether and how the file tree shows a file, from its path
/// relative to the project, the names of that path's components, and its name.
pub fn classify_file(rel_path: &str, components: &Vec<String>, name: &str) -> (r: Option<FileInfo>)
    ensures
        match file_entry(rel_path@, crate::validate::views(components@), name@) {
            Some((p, n, l)) => r matches Some(f) && f.path@ == p && f.name@ == n && f.language@ == l,
            None => r is None,
        },
{
    let ghost cv = crate::validate::views(components@);
    let mut i: usize = 0;
    while i < components.len()
        invariant
            0 <= i <= components@.len(),
            cv == crate::validate::views(components@),
            forall|j: int| 0 <= j < i ==> !skipped_dir(#[trigger] cv[j]),
        decreases components@.len() - i,
    {
        let c = components[i].as_str();
        if crate::text::same_text(c, ".git") || crate::text::same_text(c, ".graphloom")
            || crate::text::same_text(c, "node_modules") || crate::text::same_text(c, "target")
            || crate::text::same_text(c, "dist") {
            assert(skipped_dir(cv[i as int]));
            return None;
        }
        i = i + 1;
    }
    let cs = chars_of(name);
    let dot = match last_dot(&cs) {
        Some(d) => d,
        None => return None,
    };
    if dot == 0 {
        return None;
    }
    let n = cs.len();
    let ext_chars = crate::text::slice_of(&cs, dot + 1, n);
    assert(ext_chars@ =~= name@.skip(dot + 1));
    let ext = crate::text::string_of(ext_chars.as_slice());
    let language = if crate::text::same_text(ext.as_str(), "go") {
        String::from_str("go")
    } else if crate::text::same_text(ext.as_str(), "tsx") {
        String::from_str("tsx")
    } else if crate::text::same_text(ext.as_str(), "ts") {
        String::from_str("typescript")
    } else {
        return None;
    };
    proof {
        reveal_strlit("\\");
    }
    let path = crate::text::replace_all(rel_path, "\\", "/");
    Some(FileInfo { path, name: name.to_owned(), language })
}

impl SortKey for FileInfo {
    open spec fn precedes(&self, other: &Self) -> bool {
        text_lt(self.path@, other.path@)
    }

    fn sorts_before(&self, other: &Self) -> (r: bool) {
        crate::order::text_less(&self.path, &other.path)
    }
}

/// The file tree, sorted by path.
pub fn sort_file_infos(files: Vec<FileInfo>) -> (out: Vec<FileInfo>)
    ensures
        out@ == stable_sorted(files@),
{
    stable_sort(files)
}


// ---------------------------------------------------------------------------
// Update plans.

/// The diagnostics of a file as one message, separated by `; `.
pub fn diagnostics_message(errors: &Vec<AnalysisError>) -> (s: String)
    ensures
        s@ == joined(errors@.map_values(|e: AnalysisError| analysis_error_text(e)), "; "@),
{
    let mut s = String::new();
    let mut i: usize = 0;
    while i < errors.len()
        invariant
            0 <= i <= errors@.len(),
            s@ == joined(errors@.take(i as int).map_values(|e: AnalysisError| analysis_error_text(e)), "; "@),
        decreases errors@.len() - i,
    {
        let line = format_analysis_error(&errors[i]);
        push_joined(&mut s, "; ", line.as_str(), i == 0, Ghost(errors@.take(i as int).map_values(|e: AnalysisError| analysis_error_text(e))));
        assert(errors@.take((i + 1) as int).map_values(|e: AnalysisError| analysis_error_text(e))
            =~= errors@.take(i as int).map_values(|e: AnalysisError| analysis_error_text(e)).push(line@));
        i = i + 1;
    }
    assert(errors@.take(errors@.len() as int) == errors@);
    s
}

/// The files named by the packages of the model.
pub open spec fn package_files(ps: Seq<crate::ucm::Package>) -> Set<Seq<char>>
    decreases ps.len(),
{
    if ps.len() == 0 {
        Set::empty()
    } else {
        package_files(ps.drop_last()).union(crate::validate::views(ps.last().files@).to_set())
    }
}

/// The files that diagnostics are reported for (an empty file name does not count).
pub open spec fn error_files(es: Seq<AnalysisError>) -> Set<Seq<char>>
    decreases es.len(),
{
    if es.len() == 0 {
        Set::empty()
    } else if es.last().file@.len() > 0 {
        error_files(es.drop_last()).insert(es.last().file@)
    } else {
        error_files(es.drop_last())
    }
}

/// The files an update considers: those of the packages and those with diagnostics.
pub open spec fn update_files(model: UnifiedCodeModel) -> Set<Seq<char>> {
    package_files(model.packages@).union(error_files(model.errors@))
}

/// The files an update considers, in increasing order, each once.
pub fn update_paths(model: &UnifiedCodeModel) -> (out: Vec<String>)
    ensures
        crate::order::strictly_sorted(crate::validate::views(out@)),
        crate::validate::views(out@).to_set() == update_files(*model),
{
    let mut out: Vec<String> = Vec::new();
    let ps = &model.packages;
    let mut i: usize = 0;
    assert(crate::validate::views(out@).to_set() =~= Set::<Seq<char>>::empty());
    while i < ps.len()
        invariant
            0 <= i <= ps@.len(),
            ps == &model.packages,
            crate::order::strictly_sorted(crate::validate::views(out@)),
            crate::validate::views(out@).to_set() == package_files(ps@.take(i as int)),
        decreases ps@.len() - i,
    {
        assert(ps@.take((i + 1) as int).drop_last() == ps@.take(i as int));
        let files = &ps[i].files;
        let ghost before = crate::validate::views(out@).to_set();
        let mut j: usize = 0;
        assert(crate::validate::views(files@).take(0).to_set() =~= Set::<Seq<char>>::empty());
        while j < files.len()
            invariant
                0 <= j <= files@.len(),
                files == &ps@[i as int].files,
                crate::order::strictly_sorted(crate::validate::views(out@)),
                crate::validate::views(out@).to_set() == before.union(crate::validate::views(files@).take(j as int).to_set()),
            decreases files@.len() - j,
        {
            crate::order::insert_sorted_unique(&mut out, files[j].clone());
            assert(crate::validate::views(files@).take((j + 1) as int) == crate::validate::views(files@).take(j as int).push(files@[j as int]@));
            proof {
                crate::validate::views(files@).take(j as int).lemma_push_to_set_commute(files@[j as int]@);
            }
            assert(crate::validate::views(files@).take((j + 1) as int).to_set()
                =~= crate::validate::views(files@).take(j as int).to_set().insert(files@[j as int]@));
            j = j + 1;
            assert(crate::validate::views(out@).to_set() =~= before.union(crate::validate::views(files@).take(j as int).to_set()));
        }
        assert(crate::validate::views(files@).take(files@.len() as int) == crate::validate::views(files@));
        i = i + 1;
    }
    assert(ps@.take(ps@.len() as int) == ps@);
    let es = &model.errors;
    let ghost pkg = crate::validate::views(out@).to_set();
    let mut k: usize = 0;
    assert(pkg.union(error_files(es@.take(0))) =~= pkg);
    while k < es.len()
        invariant
            0 <= k <= es@.len(),
            es == &model.errors,
            pkg == package_files(model.packages@),
            crate::order::strictly_sorted(crate::validate::views(out@)),
            crate::validate::views(out@).to_set() == pkg.union(error_files(es@.take(k as int))),
        decreases es@.len() - k,
    {
        assert(es@.take((k + 1) as int).drop_last() == es@.take(k as int));
        if !es[k].file.as_str().is_empty() {
            crate::order::insert_sorted_unique(&mut out, es[k].file.clone());
        }
        k = k + 1;
        assert(crate::validate::views(out@).to_set() =~= pkg.union(error_files(es@.take(k as int))));
    }
    assert(es@.take(es@.len() as int) == es@);
    out
}

/// One source file of an update plan.
pub struct UpdateFile {
    pub path: String,
    pub hash: String,
    pub status: String,
    pub report_path: Option<String>,
    pub error: Option<String>,
}

/// What an update would do: every file with its status, and how many are
/// still to generate and how many have a report already.
pub struct UpdatePlan {
    pub total: usize,
    pub pending: usize,
    pub cached: usize,
    pub files: Vec<UpdateFile>,
}

/// A cached state still describes the file: same content hash, same settings.
pub open spec fn state_current(cached: Option<crate::state::FileState>, hash: Seq<char>, key: Seq<char>) -> bool {
    cached matches Some(c) && c.hash@ == hash && c.cache_key@ == key
}

/// The report kept for a file: the cached one, when the state is current,
/// names a report and that report still exists.
pub open spec fn kept_report(cached: Option<crate::state::FileState>, hash: Seq<char>, key: Seq<char>, report_exists: bool) -> Option<Seq<char>> {
    if state_current(cached, hash, key) && cached.unwrap().report_path@.len() > 0 && report_exists {
        Some(cached.unwrap().report_path@)
    } else {
        None
    }
}

/// The error shown for a file: its diagnostics, or else the error of a current cached state.
pub open spec fn plan_error(errors: Seq<AnalysisError>, cached: Option<crate::state::FileState>, hash: Seq<char>, key: Seq<char>) -> Option<Seq<char>> {
    if errors.len() > 0 {
        Some(joined(errors.map_values(|e: AnalysisError| analysis_error_text(e)), "; "@))
    } else if state_current(cached, hash, key) {
        crate::text::opt_view(cached.unwrap().error)
    } else {
        None
    }
}

/// A file is ready when it has a report and no error, in error when it has an
/// error, and pending otherwise.
pub open spec fn status_text(ready: bool, failed: bool) -> Seq<char> {
    if ready {
        "ready"@
    } else if failed {
        "error"@
    } else {
        "pending"@
    }
}

/// `f` is the plan's entry for file `path` with content hash `hash`, given the
/// model, the remembered file states and the current settings key.
pub open spec fn planned_file(
    model: UnifiedCodeModel,
    states: Seq<(String, crate::state::FileState)>,
    key: Seq<char>,
    path: Seq<char>,
    hash: Seq<char>,
    report_exists: bool,
    f: UpdateFile,
) -> bool {
    let cached = crate::state::map_get(states, path);
    let report = kept_report(cached, hash, key, report_exists);
    let error = plan_error(errors_in(model.errors@, path), cached, hash, key);
    &&& f.path@ == path
    &&& f.hash@ == hash
    &&& crate::text::opt_view(f.report_path) == report
    &&& crate::text::opt_view(f.error) == error
    &&& f.status@ == status_text(error is None && report is Some, error is Some)
}

/// The plan's entry for one file. `report_exists` tells whether the report
/// that the state records for the file is still on disk.
pub fn plan_entry(
    model: &UnifiedCodeModel,
    states: &Vec<(String, crate::state::FileState)>,
    cache_key: &str,
    path: String,
    hash: String,
    report_exists: bool,
) -> (f: UpdateFile)
    ensures
        planned_file(*model, states@, cache_key@, path@, hash@, report_exists, f),
{
    let ghost cached = crate::state::map_get(states@, path@);
    let at = crate::state::map_index(states, path.as_str());
    let mut current = false;
    let mut report: Option<String> = None;
    let mut kept_error: Option<String> = None;
    match at {
        Some(i) => {
            let c = &states[i].1;
            current = crate::text::same_text(c.hash.as_str(), hash.as_str())
                && crate::text::same_text(c.cache_key.as_str(), cache_key);
            if current && !c.report_path.as_str().is_empty() && report_exists {
                report = Some(c.report_path.clone());
            }
            if current {
                kept_error = c.error.clone();
            }
        },
        None => {},
    }
    assert(current == state_current(cached, hash@, cache_key@));
    assert(crate::text::opt_view(report) == kept_report(cached, hash@, cache_key@, report_exists));
    let compile = errors_for_file(model, path.as_str());
    let error = if compile.len() > 0 {
        Some(diagnostics_message(&compile))
    } else if current {
        kept_error
    } else {
        None
    };
    let ready = error.is_none() && report.is_some();
    let status = if ready {
        String::from_str("ready")
    } else if error.is_some() {
        String::from_str("error")
    } else {
        String::from_str("pending")
    };
    UpdateFile { path, hash, status, report_path: report, error }
}

impl SortKey for UpdateFile {
    open spec fn precedes(&self, other: &Self) -> bool {
        text_lt(self.path@, other.path@)
    }

    fn sorts_before(&self, other: &Self) -> (r: bool) {
        crate::order::text_less(&self.path, &other.path)
    }
}

/// What an entry's status says: a file with diagnostics is in error; a file
/// is ready exactly when it has a report and no error; a file without
/// diagnostics whose remembered state is missing or stale (another content
/// hash or other settings) has neither report nor error and is pending.
pub proof fn law_plan_status(
    model: UnifiedCodeModel,
    states: Seq<(String, crate::state::FileState)>,
    key: Seq<char>,
    path: Seq<char>,
    hash: Seq<char>,
    report_exists: bool,
    f: UpdateFile,
)
    requires
        planned_file(model, states, key, path, hash, report_exists, f),
    ensures
        errors_in(model.errors@, path).len() > 0 ==> f.status@ == "error"@
            && crate::text::opt_view(f.error) == Some(joined(errors_in(model.errors@, path).map_values(|e: AnalysisError| analysis_error_text(e)), "; "@)),
        f.status@ == "ready"@ <==> (f.error is None && f.report_path is Some),
        errors_in(model.errors@, path).len() == 0 && !state_current(crate::state::map_get(states, path), hash, key)
            ==> f.status@ == "pending"@ && f.error is None && f.report_path is None,
{
    reveal_strlit("ready");
    reveal_strlit("error");
    reveal_strlit("pending");
    assert("ready"@[0] != "error"@[0]);
    assert("ready"@[0] != "pending"@[0]);
}

/// The plan's entry for a file depends on the diagnostics of that file
/// alone: diagnostics of other files change nothing about it.
pub proof fn law_plan_entry_local(
    m1: UnifiedCodeModel,
    m2: UnifiedCodeModel,
    states: Seq<(String, crate::state::FileState)>,
    key: Seq<char>,
    path: Seq<char>,
    hash: Seq<char>,
    report_exists: bool,
    f: UpdateFile,
)
    requires
        errors_in(m1.errors@, path) == errors_in(m2.errors@, path),
    ensures
        planned_file(m1, states, key, path, hash, report_exists, f) == planned_file(m2, states, key, path, hash, report_exists, f),
{
}

/// A file just updated with a report and no error, whose report is still
/// there, is ready in the next plan as long as its content and the settings
/// are unchanged and it has no diagnostics: the remembered state is read
/// back as written.
pub proof fn law_update_then_ready(
    model: UnifiedCodeModel,
    states: Seq<(String, crate::state::FileState)>,
    path: String,
    hash: String,
    key: String,
    out: PipelineOutput,
    written: crate::state::FileState,
    f: UpdateFile,
)
    requires
        crate::order::strictly_sorted(crate::state::keys_of(states)),
        written.hash == hash,
        written.cache_key == key,
        written.report_path == out.report_path,
        written.error == out.error,
        out.report_path@.len() > 0,
        out.error is None,
        errors_in(model.errors@, path@).len() == 0,
        planned_file(model, crate::state::map_inserted(states, path, written), key@, path@, hash@, true, f),
    ensures
        f.status@ == "ready"@,
        crate::text::opt_view(f.report_path) == Some(out.report_path@),
        f.error is None,
{
    crate::state::law_map_insert_read_back(states, path, written, path@);
    reveal_strlit("ready");
}

/// After an update, a file whose content or settings changed since is
/// pending again in the next plan (when it has no diagnostics): no report,
/// no error.
pub proof fn law_changed_after_update_is_pending(
    model: UnifiedCodeModel,
    states: Seq<(String, crate::state::FileState)>,
    path: String,
    written: crate::state::FileState,
    key: Seq<char>,
    hash: Seq<char>,
    report_exists: bool,
    f: UpdateFile,
)
    requires
        crate::order::strictly_sorted(crate::state::keys_of(states)),
        written.hash@ != hash || written.cache_key@ != key,
        errors_in(model.errors@, path@).len() == 0,
        planned_file(model, crate::state::map_inserted(states, path, written), key, path@, hash, report_exists, f),
    ensures
        f.status@ == "pending"@,
        f.report_path is None,
        f.error is None,
{
    crate::state::law_map_insert_read_back(states, path, written, path@);
    law_plan_status(model, crate::state::map_inserted(states, path, written), key, path@, hash, report_exists, f);
}

/// The ready and the pending entries of a plan are never more than its entries.
pub proof fn law_plan_counts(fs: Seq<UpdateFile>)
    ensures
        count_status(fs, "ready"@) + count_status(fs, "pending"@) <= fs.len(),
    decreases fs.len(),
{
    reveal_strlit("ready");
    reveal_strlit("pending");
    assert("ready"@[0] != "pending"@[0]);
    if fs.len() > 0 {
        law_plan_counts(fs.drop_last());
    }
}

/// A plan's entries come in path order, and so do the files of the file tree.
pub proof fn law_plan_in_path_order(files: Seq<UpdateFile>, tree: Seq<FileInfo>)
    ensures
        forall|i: int, j: int| 0 <= i < j < stable_sorted(files).len()
            ==> !text_lt(#[trigger] stable_sorted(files)[j].path@, #[trigger] stable_sorted(files)[i].path@),
        forall|i: int, j: int| 0 <= i < j < stable_sorted(tree).len()
            ==> !text_lt(#[trigger] stable_sorted(tree)[j].path@, #[trigger] stable_sorted(tree)[i].path@),
{
    crate::order::lemma_text_key_orders_well(files, |f: UpdateFile| f.path@);
    crate::order::law_stable_sort_in_order(files);
    crate::order::lemma_text_key_orders_well(tree, |f: FileInfo| f.path@);
    crate::order::law_stable_sort_in_order(tree);
}

proof fn lemma_rank_after_all(d: Seq<UpdateFile>, x: UpdateFile)
    requires
        forall|k: int| 0 <= k < d.len() ==> !x.precedes(&#[trigger] d[k]),
    ensures
        crate::order::rank_of(d, x) == d.len(),
    decreases d.len(),
{
    if d.len() > 0 {
        assert(!x.precedes(&d[d.len() - 1]));
        assert forall|k: int| 0 <= k < d.drop_last().len() implies !x.precedes(&#[trigger] d.drop_last()[k]) by {
            assert(d.drop_last()[k] == d[k]);
        }
        lemma_rank_after_all(d.drop_last(), x);
    }
}

proof fn lemma_sorted_paths_stay(files: Seq<UpdateFile>)
    requires
        forall|i: int, j: int| 0 <= i < j < files.len() ==> text_lt(#[trigger] files[i].path@, #[trigger] files[j].path@),
    ensures
        stable_sorted(files) == files,
    decreases files.len(),
{
    if files.len() > 0 {
        let d = files.drop_last();
        let x = files.last();
        assert forall|i: int, j: int| 0 <= i < j < d.len() implies text_lt(#[trigger] d[i].path@, #[trigger] d[j].path@) by {
            assert(d[i] == files[i] && d[j] == files[j]);
        }
        lemma_sorted_paths_stay(d);
        assert forall|k: int| 0 <= k < d.len() implies !x.precedes(&#[trigger] d[k]) by {
            assert(d[k] == files[k]);
            assert(text_lt(files[k].path@, files[files.len() - 1].path@));
            crate::order::lemma_text_lt_total(d[k].path@, x.path@);
        }
        lemma_rank_after_all(d, x);
        assert(stable_sorted(files) =~= files);
    }
}

/// A plan made of one entry per file of `update_paths`, in that order, keeps
/// that order when `update_plan` sorts it: its paths increase strictly and
/// are exactly the package files and the files with diagnostics; every
/// entry is ready, in error or pending.
pub proof fn law_plan_covers_update_files(
    model: UnifiedCodeModel,
    states: Seq<(String, crate::state::FileState)>,
    key: Seq<char>,
    paths: Seq<Seq<char>>,
    hashes: Seq<Seq<char>>,
    exists: Seq<bool>,
    files: Seq<UpdateFile>,
)
    requires
        crate::order::strictly_sorted(paths),
        paths.to_set() == update_files(model),
        files.len() == paths.len(),
        hashes.len() == paths.len(),
        exists.len() == paths.len(),
        forall|i: int| 0 <= i < paths.len() ==> planned_file(model, states, key, #[trigger] paths[i], hashes[i], exists[i], files[i]),
    ensures
        stable_sorted(files) == files,
        forall|i: int, j: int| 0 <= i < j < files.len() ==> text_lt(#[trigger] files[i].path@, #[trigger] files[j].path@),
        files.map_values(|f: UpdateFile| f.path@).to_set() == update_files(model),
        forall|i: int| 0 <= i < files.len() ==> (#[trigger] files[i]).status@ == "ready"@ || files[i].status@ == "error"@
            || files[i].status@ == "pending"@,
{
    assert forall|i: int| 0 <= i < files.len() implies files[i].path@ == #[trigger] paths[i] by {
        assert(planned_file(model, states, key, paths[i], hashes[i], exists[i], files[i]));
    }
    assert forall|i: int, j: int| 0 <= i < j < files.len() implies text_lt(#[trigger] files[i].path@, #[trigger] files[j].path@) by {
        assert(files[i].path@ == paths[i]);
        assert(files[j].path@ == paths[j]);
    }
    lemma_sorted_paths_stay(files);
    assert(files.map_values(|f: UpdateFile| f.path@) =~= paths) by {
        assert forall|i: int| 0 <= i < files.len() implies files.map_values(|f: UpdateFile| f.path@)[i] == paths[i] by {
            assert(files[i].path@ == paths[i]);
        }
    }
    assert forall|i: int| 0 <= i < files.len() implies (#[trigger] files[i]).status@ == "ready"@ || files[i].status@ == "error"@
        || files[i].status@ == "pending"@ by {
        assert(planned_file(model, states, key, paths[i], hashes[i], exists[i], files[i]));
    }
}

/// How many entries have status `status`.
pub open spec fn count_status(fs: Seq<UpdateFile>, status: Seq<char>) -> nat
    decreases fs.len(),
{
    if fs.len() == 0 {
        0
    } else {
        count_status(fs.drop_last(), status) + if fs.last().status@ == status { 1nat } else { 0nat }
    }
}

proof fn lemma_count_status_le(fs: Seq<UpdateFile>, s: Seq<char>)
    ensures
        count_status(fs, s) <= fs.len(),
    decreases fs.len(),
{
    if fs.len() > 0 {
        lemma_count_status_le(fs.drop_last(), s);
    }
}

/// The plan over the given entries: sorted by path, with the counts of the
/// ready and the pending ones.
pub fn update_plan(files: Vec<UpdateFile>) -> (plan: UpdatePlan)
    ensures
        plan.files@ == stable_sorted(files@),
        plan.total == plan.files@.len(),
        plan.cached == count_status(plan.files@, "ready"@),
        plan.pending == count_status(plan.files@, "pending"@),
{
    let sorted = stable_sort(files);
    let mut cached: usize = 0;
    let mut pending: usize = 0;
    let mut i: usize = 0;
    while i < sorted.len()
        invariant
            0 <= i <= sorted@.len(),
            cached == count_status(sorted@.take(i as int), "ready"@),
            pending == count_status(sorted@.take(i as int), "pending"@),
        decreases sorted@.len() - i,
    {
        assert(sorted@.take((i + 1) as int).drop_last() == sorted@.take(i as int));
        proof {
            lemma_count_status_le(sorted@.take(i as int), "ready"@);
            lemma_count_status_le(sorted@.take(i as int), "pending"@);
        }
        proof {
            reveal_strlit("ready");
            reveal_strlit("pending");
            assert("ready"@[0] != "pending"@[0]);
        }
        if crate::text::same_text(sorted[i].status.as_str(), "ready") {
            cached = cached + 1;
        } else if crate::text::same_text(sorted[i].status.as_str(), "pending") {
            pending = pending + 1;
        }
        i = i + 1;
    }
    assert(sorted@.take(sorted@.len() as int) == sorted@);
    UpdatePlan { total: sorted.len(), pending, cached, files: sorted }
}

// ---------------------------------------------------------------------------
// Reports.

/// Where a finished analysis was written, and its size.
pub struct PipelineOutput {
    pub report_path: String,
    pub dsl_path: String,
    pub nodes: usize,
    pub edges: usize,
    pub error: Option<String>,
}

/// The name shared by a report and its diagram: `report-<level>-<stamp>`.
pub open spec fn report_base(level: Seq<char>, stamp: Seq<char>) -> Seq<char> {
    "report-"@ + level + "-"@ + stamp
}

/// The paths of a report and of its diagram in directory `dir`, for a level
/// (`project`, `file`, `function`) and a time stamp.
pub fn report_paths(dir: &str, level: &str, stamp: &str) -> (r: (String, String))
    ensures
        r.0@ == crate::text::path_joined(dir@, report_base(level@, stamp@) + ".html"@),
        r.1@ == crate::text::path_joined(dir@, report_base(level@, stamp@) + ".dsl.json"@),
{
    let mut base = String::from_str("report-");
    push_str(&mut base, level);
    push_str(&mut base, "-");
    push_str(&mut base, stamp);
    let mut html = base.clone();
    push_str(&mut html, ".html");
    let mut dsl = base;
    push_str(&mut dsl, ".dsl.json");
    (crate::text::join_path(dir, html.as_str()), crate::text::join_path(dir, dsl.as_str()))
}

/// What an analysis reports back: where it was written, how many nodes and
/// edges the diagram has, and the error it carries, if any.
pub fn pipeline_output(report_path: String, dsl_path: String, viz: &Visualization, error: Option<String>) -> (out: PipelineOutput)
    requires
        forest_flat(viz.nodes@).len() <= usize::MAX,
    ensures
        out.report_path == report_path,
        out.dsl_path == dsl_path,
        out.nodes == forest_flat(viz.nodes@).len(),
        out.edges == viz.edges@.len(),
        out.error == error,
{
    let nodes = count_nodes(&viz.nodes);
    PipelineOutput { report_path, dsl_path, nodes, edges: viz.edges.len(), error }
}

// ---------------------------------------------------------------------------
// Keeping cached state honest.

/// A cached model is only trusted when it carries the analyzers' newer
/// output: some entity with coverage, or some diagnostic.
pub open spec fn model_is_current(model: UnifiedCodeModel) -> bool {
    (exists|i: int| 0 <= i < model.entities@.len() && (#[trigger] model.entities@[i]).coverage)
        || model.errors@.len() > 0
}

/// Whether a cached model whose fingerprint matches can be used as it is.
pub fn model_cache_usable(model: &UnifiedCodeModel) -> (r: bool)
    ensures
        r == model_is_current(*model),
{
    if model.errors.len() > 0 {
        return true;
    }
    let mut i: usize = 0;
    while i < model.entities.len()
        invariant
            0 <= i <= model.entities@.len(),
            forall|j: int| 0 <= j < i ==> !(#[trigger] model.entities@[j]).coverage,
        decreases model.entities@.len() - i,
    {
        if model.entities[i].coverage {
            return true;
        }
        i = i + 1;
    }
    false
}

pub open spec fn changed_file_text(file: Seq<char>) -> Seq<char> {
    "file '"@ + file + "' changed while waiting for generation"@
}

/// An update goes ahead only on the content it was planned for.
pub fn check_unchanged(file: &str, actual_hash: &str, expected_hash: &str) -> (r: Result<(), String>)
    ensures
        r is Ok <==> actual_hash@ == expected_hash@,
        r matches Err(m) ==> m@ == changed_file_text(file@),
{
    if crate::text::same_text(actual_hash, expected_hash) {
        Ok(())
    } else {
        let mut m = String::from_str("file '");
        push_str(&mut m, file);
        push_str(&mut m, "' changed while waiting for generation");
        Err(m)
    }
}

/// The state remembered for a file after an update: the report, the diagram
/// and the error of the output, or, when the analysis failed, its error and
/// no report.
pub fn updated_file_state(hash: String, cache_key: String, outcome: Result<&PipelineOutput, String>) -> (s: crate::state::FileState)
    ensures
        s.hash == hash,
        s.cache_key == cache_key,
        match outcome {
            Ok(out) => s.report_path == out.report_path && s.dsl_path == out.dsl_path && s.error == out.error,
            Err(e) => s.report_path@.len() == 0 && s.dsl_path@.len() == 0 && s.error == Some(e),
        },
{
    match outcome {
        Ok(out) => crate::state::FileState {
            hash,
            cache_key,
            report_path: out.report_path.clone(),
            dsl_path: out.dsl_path.clone(),
            error: out.error.clone(),
        },
        Err(e) => crate::state::FileState {
            hash,
            cache_key,
            report_path: String::new(),
            dsl_path: String::new(),
            error: Some(e),
        },
    }
}

pub open spec fn no_cached_report_text(file: Seq<char>) -> Seq<char> {
    "file '"@ + file + "' has no cached report"@
}

/// The cached entry a report is re-rendered from.
pub fn cached_entry(states: &Vec<(String, crate::state::FileState)>, file: &str) -> (r: Result<usize, String>)
    ensures
        match r {
            Ok(i) => i < states@.len() && states@[i as int].0@ == file@
                && crate::state::map_get(states@, file@) == Some(states@[i as int].1),
            Err(m) => crate::state::map_get(states@, file@) is None && m@ == no_cached_report_text(file@),
        },
{
    match crate::state::map_index(states, file) {
        Some(i) => Ok(i),
        None => {
            let mut m = String::from_str("file '");
            push_str(&mut m, file);
            push_str(&mut m, "' has no cached report");
            Err(m)
        },
    }
}

/// The file of the first symbol of the model with id `id`.
pub open spec fn symbol_file(model: UnifiedCodeModel, id: Seq<char>) -> Option<Seq<char>> {
    match first_match(model.symbols@, |s: crate::ucm::Symbol| s.id@ == id) {
        Some(i) => Some(model.symbols@[i].source.file@),
        None => None,
    }
}

pub open spec fn msg_symbol_not_found(id: Seq<char>) -> Seq<char> {
    "symbol '"@ + id + "' not found in UCM"@
}

/// The file a function flow is drawn from: that of the symbol with this id.
pub fn symbol_source_file(model: &UnifiedCodeModel, id: &str) -> (r: Result<String, String>)
    ensures
        match symbol_file(*model, id@) {
            Some(f) => r matches Ok(t) && t@ == f,
            None => r matches Err(m) && m@ == msg_symbol_not_found(id@),
        },
{
    let key = id.to_owned();
    let syms = &model.symbols;
    let ghost p = |s: crate::ucm::Symbol| s.id@ == id@;
    let mut i: usize = 0;
    while i < syms.len()
        invariant
            0 <= i <= syms@.len(),
            syms == &model.symbols,
            key@ == id@,
            p == (|s: crate::ucm::Symbol| s.id@ == id@),
            first_match(syms@.take(i as int), p) is None,
        decreases syms@.len() - i,
    {
        if syms[i].id == key {
            proof {
                lemma_first_match_prefix(syms@, p, i as int);
            }
            return Ok(syms[i].source.file.clone());
        }
        proof {
            lemma_first_match_step(syms@, p, i as int);
        }
        i = i + 1;
    }
    assert(syms@.take(syms@.len() as int) == syms@);
    let mut m = String::from_str("symbol '");
    push_str(&mut m, id);
    push_str(&mut m, "' not found in UCM");
    Err(m)
}

} // verus!
