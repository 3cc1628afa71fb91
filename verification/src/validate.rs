//! Checks a labeled visualization against the code model it claims to describe.
use vstd::prelude::*;
use vstd::string::*;
use crate::dsl::{Branch, EdgeStatus, Level, NodeKind, SourceRef, Visualization, VizEdge, VizNode};
use crate::settings::ElementType;
use crate::text::{decimal, decimal_string, push_str, same_text};
use crate::ucm::{Call, Symbol, UnifiedCodeModel};

verus! {

// ---------------------------------------------------------------------------
// What the code model says about files, symbols and calls.

/// Some symbol of the model lives in file `f`.
pub open spec fn file_known(ucm: UnifiedCodeModel, f: Seq<char>) -> bool {
    exists|i: int| 0 <= i < ucm.symbols@.len() && #[trigger] ucm.symbols@[i].source.file@ == f
}

/// The largest end line of the symbols of file `f` (zero when it has none).
pub open spec fn max_end_line(syms: Seq<Symbol>, f: Seq<char>) -> u32
    decreases syms.len(),
{
    if syms.len() == 0 {
        0
    } else {
        let prev = max_end_line(syms.drop_last(), f);
        let s = syms.last();
        if s.source.file@ == f && s.source.end_line > prev {
            s.source.end_line
        } else {
            prev
        }
    }
}

/// The last line a node may point at in file `f`: at least one.
pub open spec fn line_limit(ucm: UnifiedCodeModel, f: Seq<char>) -> u32 {
    let m = max_end_line(ucm.symbols@, f);
    if m < 1 { 1 } else { m }
}

/// The index of the symbol that an id resolves to: the last symbol with that id.
pub open spec fn symbol_index(syms: Seq<Symbol>, id: Seq<char>) -> Option<int>
    decreases syms.len(),
{
    if syms.len() == 0 {
        None
    } else if syms.last().id@ == id {
        Some(syms.len() - 1)
    } else {
        symbol_index(syms.drop_last(), id)
    }
}

/// `symbol_index` finds the last symbol with the id, and finds nothing only
/// when no symbol has it.
pub proof fn lemma_symbol_index(syms: Seq<Symbol>, id: Seq<char>)
    ensures
        match symbol_index(syms, id) {
            Some(j) => 0 <= j < syms.len() && syms[j].id@ == id
                && forall|k: int| j < k < syms.len() ==> (#[trigger] syms[k]).id@ != id,
            None => forall|k: int| 0 <= k < syms.len() ==> (#[trigger] syms[k]).id@ != id,
        },
    decreases syms.len(),
{
    if syms.len() > 0 {
        let d = syms.drop_last();
        lemma_symbol_index(d, id);
        if syms.last().id@ != id {
            assert forall|k: int| 0 <= k < syms.len() - 1 implies #[trigger] syms[k] == d[k] by {}
        }
    }
}

/// Some symbol of the model has this id.
pub open spec fn symbol_known(ucm: UnifiedCodeModel, id: Seq<char>) -> bool {
    exists|i: int| 0 <= i < ucm.symbols@.len() && #[trigger] ucm.symbols@[i].id@ == id
}

/// `|a - b|`.
pub open spec fn distance(a: u32, b: u32) -> u32 {
    if a >= b { (a - b) as u32 } else { (b - a) as u32 }
}

/// Some call of the model sits in file `f`.
pub open spec fn file_has_calls(calls: Seq<Call>, f: Seq<char>) -> bool {
    exists|i: int| 0 <= i < calls.len() && #[trigger] calls[i].source.file@ == f
}

/// Among the calls in file `f`, the first one whose start line is strictly
/// closest to `center`, with its distance; `u32::MAX` when none is closer than that.
pub open spec fn nearest_call(calls: Seq<Call>, f: Seq<char>, center: u32) -> (Option<Call>, u32)
    decreases calls.len(),
{
    if calls.len() == 0 {
        (None, u32::MAX)
    } else {
        let (best, best_dist) = nearest_call(calls.drop_last(), f, center);
        let c = calls.last();
        let d = distance(c.source.start_line, center);
        if c.source.file@ == f && d < best_dist {
            (Some(c), d)
        } else {
            (best, best_dist)
        }
    }
}

/// `x` moved into `1..=max`.
pub open spec fn clamp_line(x: u32, max: u32) -> u32 {
    let lo = if x < 1 { 1 } else { x };
    if lo > max { max } else { lo }
}

pub open spec fn max_u32(a: u32, b: u32) -> u32 {
    if a >= b { a } else { b }
}

pub open spec fn min_u32(a: u32, b: u32) -> u32 {
    if a <= b { a } else { b }
}

/// Node kinds whose position is pulled towards a nearby call.
pub open spec fn call_like(kind: NodeKind) -> bool {
    kind == NodeKind::Call || kind == NodeKind::Action || kind == NodeKind::Error || kind == NodeKind::Async
}

/// The node's symbol resolves to a symbol of the same file as its source.
pub open spec fn snaps_to_symbol(symbol: Option<String>, src: SourceRef, ucm: UnifiedCodeModel) -> bool {
    match symbol {
        Some(id) => match symbol_index(ucm.symbols@, id@) {
            Some(i) => ucm.symbols@[i].source.file@ == src.file@,
            None => false,
        },
        None => false,
    }
}

/// The position is pulled towards the calls of its file.
pub open spec fn snaps_to_call(kind: NodeKind, symbol: Option<String>, src: SourceRef, ucm: UnifiedCodeModel) -> bool {
    !snaps_to_symbol(symbol, src, ucm) && call_like(kind) && file_has_calls(ucm.calls@, src.file@)
}

/// Snapping does not overflow: the center of a range that is pulled
/// towards a call fits in `u32`.
pub open spec fn snap_fits(kind: NodeKind, symbol: Option<String>, src: SourceRef, ucm: UnifiedCodeModel) -> bool {
    snaps_to_call(kind, symbol, src, ucm) ==> src.start_line + src.end_line <= u32::MAX
}

/// The source range of a node after it has been snapped onto the code model.
pub open spec fn snapped(kind: NodeKind, symbol: Option<String>, src: SourceRef, ucm: UnifiedCodeModel) -> (u32, u32) {
    let max = line_limit(ucm, src.file@);
    if snaps_to_symbol(symbol, src, ucm) {
        let sym = ucm.symbols@[symbol_index(ucm.symbols@, symbol->0@)->0];
        let s = clamp_line(sym.source.start_line, max);
        (s, min_u32(max_u32(sym.source.end_line, s), max))
    } else {
        let (s1, e1) = if snaps_to_call(kind, symbol, src, ucm) {
            let center = ((src.start_line + src.end_line) / 2) as u32;
            let (best, d) = nearest_call(ucm.calls@, src.file@, center);
            match best {
                Some(c) => if d <= 5 {
                    let s = clamp_line(c.source.start_line, max);
                    (s, min_u32(max_u32(c.source.end_line, s), max))
                } else {
                    (src.start_line, src.end_line)
                },
                None => (src.start_line, src.end_line),
            }
        } else {
            (src.start_line, src.end_line)
        };
        let s2 = clamp_line(s1, max);
        let e2 = clamp_line(e1, max);
        if s2 > e2 { (e2, s2) } else { (s2, e2) }
    }
}


// ---------------------------------------------------------------------------
// Executable lookups on the code model.

fn line_limit_of(ucm: &UnifiedCodeModel, f: &String) -> (m: u32)
    ensures
        m == line_limit(*ucm, f@),
{
    let syms = &ucm.symbols;
    let mut m: u32 = 0;
    let mut i: usize = 0;
    while i < syms.len()
        invariant
            0 <= i <= syms@.len(),
            syms == &ucm.symbols,
            m == max_end_line(syms@.take(i as int), f@),
        decreases syms@.len() - i,
    {
        assert(syms@.take((i + 1) as int).drop_last() == syms@.take(i as int));
        let s = &syms[i];
        if s.source.file == *f && s.source.end_line > m {
            m = s.source.end_line;
        }
        i = i + 1;
    }
    assert(syms@.take(syms@.len() as int) == syms@);
    if m < 1 { 1 } else { m }
}

pub(crate) fn symbol_index_of(syms: &Vec<Symbol>, id: &String) -> (r: Option<usize>)
    ensures
        match r {
            Some(i) => symbol_index(syms@, id@) == Some(i as int),
            None => symbol_index(syms@, id@) is None,
        },
        r matches Some(i) ==> i < syms@.len(),
{
    let mut r: Option<usize> = None;
    let mut i: usize = 0;
    while i < syms.len()
        invariant
            0 <= i <= syms@.len(),
            match r {
                Some(k) => symbol_index(syms@.take(i as int), id@) == Some(k as int) && k < i,
                None => symbol_index(syms@.take(i as int), id@) is None,
            },
        decreases syms@.len() - i,
    {
        assert(syms@.take((i + 1) as int).drop_last() == syms@.take(i as int));
        if syms[i].id == *id {
            r = Some(i);
        }
        i = i + 1;
    }
    assert(syms@.take(syms@.len() as int) == syms@);
    r
}

fn has_symbol(ucm: &UnifiedCodeModel, id: &String) -> (b: bool)
    ensures
        b == symbol_known(*ucm, id@),
{
    let mut i: usize = 0;
    while i < ucm.symbols.len()
        invariant
            0 <= i <= ucm.symbols@.len(),
            forall|j: int| 0 <= j < i ==> ucm.symbols@[j].id@ != id@,
        decreases ucm.symbols@.len() - i,
    {
        if ucm.symbols[i].id == *id {
            return true;
        }
        i = i + 1;
    }
    false
}

fn has_file(ucm: &UnifiedCodeModel, f: &String) -> (b: bool)
    ensures
        b == file_known(*ucm, f@),
{
    let mut i: usize = 0;
    while i < ucm.symbols.len()
        invariant
            0 <= i <= ucm.symbols@.len(),
            forall|j: int| 0 <= j < i ==> ucm.symbols@[j].source.file@ != f@,
        decreases ucm.symbols@.len() - i,
    {
        if ucm.symbols[i].source.file == *f {
            return true;
        }
        i = i + 1;
    }
    false
}

fn has_calls_in(calls: &Vec<Call>, f: &String) -> (b: bool)
    ensures
        b == file_has_calls(calls@, f@),
{
    let mut i: usize = 0;
    while i < calls.len()
        invariant
            0 <= i <= calls@.len(),
            forall|j: int| 0 <= j < i ==> calls@[j].source.file@ != f@,
        decreases calls@.len() - i,
    {
        if calls[i].source.file == *f {
            return true;
        }
        i = i + 1;
    }
    false
}

fn distance_of(a: u32, b: u32) -> (d: u32)
    ensures
        d == distance(a, b),
{
    if a >= b { a - b } else { b - a }
}

fn nearest_of(calls: &Vec<Call>, f: &String, center: u32) -> (r: (Option<usize>, u32))
    ensures
        r.1 == nearest_call(calls@, f@, center).1,
        match r.0 {
            Some(i) => i < calls@.len() && nearest_call(calls@, f@, center).0 == Some(calls@[i as int]),
            None => nearest_call(calls@, f@, center).0 is None,
        },
{
    let mut best: Option<usize> = None;
    let mut best_dist: u32 = u32::MAX;
    let mut i: usize = 0;
    while i < calls.len()
        invariant
            0 <= i <= calls@.len(),
            best_dist == nearest_call(calls@.take(i as int), f@, center).1,
            match best {
                Some(k) => k < i && nearest_call(calls@.take(i as int), f@, center).0 == Some(calls@[k as int]),
                None => nearest_call(calls@.take(i as int), f@, center).0 is None,
            },
        decreases calls@.len() - i,
    {
        assert(calls@.take((i + 1) as int).drop_last() == calls@.take(i as int));
        let c = &calls[i];
        if c.source.file == *f {
            let d = distance_of(c.source.start_line, center);
            if d < best_dist {
                best_dist = d;
                best = Some(i);
            }
        }
        i = i + 1;
    }
    assert(calls@.take(calls@.len() as int) == calls@);
    (best, best_dist)
}

fn clamp_of(x: u32, max: u32) -> (r: u32)
    ensures
        r == clamp_line(x, max),
{
    let lo = if x < 1 { 1 } else { x };
    if lo > max { max } else { lo }
}

/// Moves a node's source range onto the code model: onto its symbol when that
/// symbol lives in the same file, else (for call-like nodes) onto a call at most
/// five lines from the range's center, and always into `1..=` the file's last
/// known line, start before end.
fn snap_source(kind: NodeKind, symbol: &Option<String>, src: &mut SourceRef, ucm: &UnifiedCodeModel)
    requires
        snap_fits(kind, *symbol, *old(src), *ucm),
    ensures
        final(src).file == old(src).file,
        (final(src).start_line, final(src).end_line) == snapped(kind, *symbol, *old(src), *ucm),
{
    let max = line_limit_of(ucm, &src.file);
    if let Some(id) = symbol {
        if let Some(i) = symbol_index_of(&ucm.symbols, id) {
            let sym = &ucm.symbols[i];
            if sym.source.file == src.file {
                let s = clamp_of(sym.source.start_line, max);
                let e0 = if sym.source.end_line >= s { sym.source.end_line } else { s };
                src.start_line = s;
                src.end_line = if e0 <= max { e0 } else { max };
                return;
            }
        }
    }
    let is_call_like = match kind {
        NodeKind::Call | NodeKind::Action | NodeKind::Error | NodeKind::Async => true,
        _ => false,
    };
    if is_call_like && has_calls_in(&ucm.calls, &src.file) {
        let center = (src.start_line + src.end_line) / 2;
        let (best, d) = nearest_of(&ucm.calls, &src.file, center);
        if let Some(k) = best {
            if d <= 5 {
                let c = &ucm.calls[k];
                let s = clamp_of(c.source.start_line, max);
                let e0 = if c.source.end_line >= s { c.source.end_line } else { s };
                src.start_line = s;
                src.end_line = if e0 <= max { e0 } else { max };
            }
        }
    }
    let s2 = clamp_of(src.start_line, max);
    let e2 = clamp_of(src.end_line, max);
    if s2 > e2 {
        src.start_line = e2;
        src.end_line = s2;
    } else {
        src.start_line = s2;
        src.end_line = e2;
    }
}


fn source_fits(kind: NodeKind, symbol: &Option<String>, src: &SourceRef, ucm: &UnifiedCodeModel) -> (b: bool)
    ensures
        b == snap_fits(kind, *symbol, *src, *ucm),
{
    if let Some(id) = symbol {
        if let Some(i) = symbol_index_of(&ucm.symbols, id) {
            if ucm.symbols[i].source.file == src.file {
                return true;
            }
        }
    }
    let is_call_like = match kind {
        NodeKind::Call | NodeKind::Action | NodeKind::Error | NodeKind::Async => true,
        _ => false,
    };
    if is_call_like && has_calls_in(&ucm.calls, &src.file) {
        src.start_line <= u32::MAX - src.end_line
    } else {
        true
    }
}

fn forest_fits_check(ns: &Vec<VizNode>, ucm: &UnifiedCodeModel) -> (b: bool)
    ensures
        b == forest_fits(ns@, *ucm),
    decreases ns@,
{
    let mut i: usize = 0;
    while i < ns.len()
        invariant
            0 <= i <= ns@.len(),
            forest_fits(ns@.take(i as int), *ucm),
        decreases ns@.len() - i,
    {
        assert(ns@.take((i + 1) as int).drop_last() == ns@.take(i as int));
        assert(ns@.take((i + 1) as int).last() == ns@[i as int]);
        let n = &ns[i];
        let own = match &n.source {
            Some(src) => source_fits(n.kind, &n.symbol, src, ucm),
            None => true,
        };
        assert(decreases_to!(ns@ => ns@[i as int]));
        let kids = forest_fits_check(&n.children, ucm);
        assert(tree_fits(ns@[i as int], *ucm) == (own && kids));
        assert(forest_fits(ns@.take((i + 1) as int), *ucm) == (forest_fits(ns@.take(i as int), *ucm) && tree_fits(ns@[i as int], *ucm)));
        if !(own && kids) {
            proof {
                if forest_fits(ns@, *ucm) {
                    lemma_forest_fits_prefix(ns@, i as int + 1, *ucm);
                }
            }
            return false;
        }
        i = i + 1;
    }
    assert(ns@.take(ns@.len() as int) == ns@);
    true
}

proof fn lemma_forest_fits_prefix(ns: Seq<VizNode>, k: int, ucm: UnifiedCodeModel)
    requires
        0 <= k <= ns.len(),
        forest_fits(ns, ucm),
    ensures
        forest_fits(ns.take(k), ucm),
    decreases ns.len(),
{
    if k < ns.len() {
        assert(ns.drop_last().take(k) == ns.take(k));
        lemma_forest_fits_prefix(ns.drop_last(), k, ucm);
    } else {
        assert(ns.take(k) == ns);
    }
}

/// Whether the visualization's source ranges can be validated without
/// overflow (see `forest_fits`); validation needs it.
pub fn validation_fits(viz: &Visualization, ucm: &UnifiedCodeModel) -> (r: bool)
    ensures
        r == forest_fits(viz.nodes@, *ucm),
{
    forest_fits_check(&viz.nodes, ucm)
}

// ---------------------------------------------------------------------------
// The node tree.

/// The ids of a node and its descendants, in pre-order.
pub open spec fn tree_ids(n: VizNode) -> Seq<Seq<char>>
    decreases n,
{
    seq![n.id@] + forest_ids(n.children@)
}

/// The ids of a forest, in pre-order.
pub open spec fn forest_ids(ns: Seq<VizNode>) -> Seq<Seq<char>>
    decreases ns,
{
    if ns.len() == 0 {
        seq![]
    } else {
        forest_ids(ns.drop_last()) + tree_ids(ns.last())
    }
}

/// Every source range of the tree can be snapped without overflow.
pub open spec fn tree_fits(n: VizNode, ucm: UnifiedCodeModel) -> bool
    decreases n,
{
    &&& (n.source matches Some(src) ==> snap_fits(n.kind, n.symbol, src, ucm))
    &&& forest_fits(n.children@, ucm)
}

pub open spec fn forest_fits(ns: Seq<VizNode>, ucm: UnifiedCodeModel) -> bool
    decreases ns,
{
    if ns.len() == 0 {
        true
    } else {
        forest_fits(ns.drop_last(), ucm) && tree_fits(ns.last(), ucm)
    }
}

/// Two nodes agree on everything but their source range and children.
pub open spec fn same_payload(a: VizNode, b: VizNode) -> bool {
    &&& a.id == b.id
    &&& a.kind == b.kind
    &&& a.label == b.label
    &&& a.layer == b.layer
    &&& a.element_type == b.element_type
    &&& a.symbol == b.symbol
    &&& a.summary == b.summary
    &&& a.coverage_ids == b.coverage_ids
    &&& a.group_id == b.group_id
    &&& a.tests == b.tests
    &&& a.confidence == b.confidence
    &&& a.branches == b.branches
    &&& a.data_in == b.data_in
    &&& a.data_out == b.data_out
    &&& a.effects == b.effects
    &&& a.cross_refs == b.cross_refs
}

/// `new` is `old` with every source range snapped onto the code model.
pub open spec fn snapped_tree(old: VizNode, new: VizNode, ucm: UnifiedCodeModel) -> bool
    decreases old,
{
    &&& same_payload(old, new)
    &&& match (old.source, new.source) {
        (None, None) => true,
        (Some(o), Some(n)) => n.file == o.file && (n.start_line, n.end_line) == snapped(
            old.kind,
            old.symbol,
            o,
            ucm,
        ),
        _ => false,
    }
    &&& snapped_forest(old.children@, new.children@, ucm)
}

pub open spec fn snapped_forest(old: Seq<VizNode>, new: Seq<VizNode>, ucm: UnifiedCodeModel) -> bool
    decreases old,
{
    &&& old.len() == new.len()
    &&& if old.len() == 0 {
        true
    } else {
        snapped_forest(old.drop_last(), new.drop_last(), ucm) && snapped_tree(old.last(), new.last(), ucm)
    }
}

// ---------------------------------------------------------------------------
// The messages a validation reports.

pub open spec fn views(v: Seq<String>) -> Seq<Seq<char>> {
    v.map_values(|s: String| s@)
}

pub open spec fn msg_missing_source(id: Seq<char>) -> Seq<char> {
    "node '"@ + id + "' missing source ref on scoped level"@
}

pub open spec fn msg_bad_range(id: Seq<char>, s: u32, e: u32) -> Seq<char> {
    "node '"@ + id + "' has invalid source range "@ + decimal(s as nat) + "-"@ + decimal(e as nat)
}

pub open spec fn msg_unknown_file(id: Seq<char>, f: Seq<char>) -> Seq<char> {
    "node '"@ + id + "' references unknown file '"@ + f + "'"@
}

pub open spec fn msg_unknown_symbol(id: Seq<char>, sym: Seq<char>) -> Seq<char> {
    "node '"@ + id + "' references unknown symbol '"@ + sym + "'"@
}

pub open spec fn msg_unknown_element_type(id: Seq<char>, t: Seq<char>) -> Seq<char> {
    "node '"@ + id + "' uses unknown element_type '"@ + t + "'"@
}

pub open spec fn msg_unknown_branch(id: Seq<char>, target: Seq<char>) -> Seq<char> {
    "node '"@ + id + "' branch targets unknown node '"@ + target + "'"@
}

pub open spec fn msg_edge_from(id: Seq<char>) -> Seq<char> {
    "edge from unknown node '"@ + id + "'"@
}

pub open spec fn msg_edge_to(id: Seq<char>) -> Seq<char> {
    "edge to unknown node '"@ + id + "'"@
}

/// The palette has an element type of this kind.
pub open spec fn palette_has(palette: Seq<ElementType>, kind: Seq<char>) -> bool {
    exists|i: int| 0 <= i < palette.len() && #[trigger] palette[i].kind@ == kind
}

pub open spec fn branch_errors(id: Seq<char>, bs: Seq<Branch>, ids: Seq<Seq<char>>) -> Seq<Seq<char>>
    decreases bs.len(),
{
    if bs.len() == 0 {
        seq![]
    } else {
        branch_errors(id, bs.drop_last(), ids) + if ids.contains(bs.last().target@) {
            Seq::<Seq<char>>::empty()
        } else {
            seq![msg_unknown_branch(id, bs.last().target@)]
        }
    }
}

/// What is wrong with one node itself, judged after its source was snapped.
pub open spec fn own_errors(
    n: VizNode,
    ids: Seq<Seq<char>>,
    ucm: UnifiedCodeModel,
    palette: Seq<ElementType>,
    level: Level,
) -> Seq<Seq<char>> {
    let missing = if level != Level::Project && n.source is None {
        seq![msg_missing_source(n.id@)]
    } else {
        Seq::<Seq<char>>::empty()
    };
    let source_errors = match n.source {
        Some(src) => {
            let (s, e) = snapped(n.kind, n.symbol, src, ucm);
            (if s == 0 || s > e {
                seq![msg_bad_range(n.id@, s, e)]
            } else {
                Seq::<Seq<char>>::empty()
            }) + (if !file_known(ucm, src.file@) {
                seq![msg_unknown_file(n.id@, src.file@)]
            } else {
                Seq::<Seq<char>>::empty()
            })
        },
        None => Seq::<Seq<char>>::empty(),
    };
    let symbol_errors = match n.symbol {
        Some(sym) => if !symbol_known(ucm, sym@) {
            seq![msg_unknown_symbol(n.id@, sym@)]
        } else {
            Seq::<Seq<char>>::empty()
        },
        None => Seq::<Seq<char>>::empty(),
    };
    let type_errors = match n.element_type {
        Some(t) => if !palette_has(palette, t@) {
            seq![msg_unknown_element_type(n.id@, t@)]
        } else {
            Seq::<Seq<char>>::empty()
        },
        None => Seq::<Seq<char>>::empty(),
    };
    missing + source_errors + symbol_errors + type_errors + branch_errors(n.id@, n.branches@, ids)
}

/// What is wrong with a node and its descendants, in pre-order.
pub open spec fn tree_errors(
    n: VizNode,
    ids: Seq<Seq<char>>,
    ucm: UnifiedCodeModel,
    palette: Seq<ElementType>,
    level: Level,
) -> Seq<Seq<char>>
    decreases n,
{
    own_errors(n, ids, ucm, palette, level) + forest_errors(n.children@, ids, ucm, palette, level)
}

pub open spec fn forest_errors(
    ns: Seq<VizNode>,
    ids: Seq<Seq<char>>,
    ucm: UnifiedCodeModel,
    palette: Seq<ElementType>,
    level: Level,
) -> Seq<Seq<char>>
    decreases ns,
{
    if ns.len() == 0 {
        seq![]
    } else {
        forest_errors(ns.drop_last(), ids, ucm, palette, level) + tree_errors(ns.last(), ids, ucm, palette, level)
    }
}


// ---------------------------------------------------------------------------
// Facts about the tree specifications.

proof fn lemma_forest_fits_each(ns: Seq<VizNode>, ucm: UnifiedCodeModel)
    requires
        forest_fits(ns, ucm),
    ensures
        forall|i: int| 0 <= i < ns.len() ==> tree_fits(#[trigger] ns[i], ucm),
    decreases ns.len(),
{
    if ns.len() > 0 {
        lemma_forest_fits_each(ns.drop_last(), ucm);
        assert forall|i: int| 0 <= i < ns.len() implies tree_fits(#[trigger] ns[i], ucm) by {
            if i < ns.len() - 1 {
                assert(ns[i] == ns.drop_last()[i]);
            }
        }
    }
}

// ---------------------------------------------------------------------------
// Executable validation of the node tree.

pub(crate) fn contains_text(v: &Vec<String>, x: &String) -> (b: bool)
    ensures
        b == views(v@).contains(x@),
{
    let mut i: usize = 0;
    while i < v.len()
        invariant
            0 <= i <= v@.len(),
            forall|j: int| 0 <= j < i ==> v@[j]@ != x@,
        decreases v@.len() - i,
    {
        if v[i] == *x {
            assert(views(v@)[i as int] == x@);
            return true;
        }
        i = i + 1;
    }
    assert forall|j: int| 0 <= j < views(v@).len() implies views(v@)[j] != x@ by {
        assert(views(v@)[j] == v@[j]@);
    }
    false
}

fn push_message(errors: &mut Vec<String>, m: String)
    ensures
        views(final(errors)@) == views(old(errors)@).push(m@),
{
    errors.push(m);
    assert(views(errors@) =~= views(old(errors)@).push(m@));
}

fn node_message(id: &String, middle: &str, value: &String, tail: &str) -> (m: String)
    ensures
        m@ == "node '"@ + id@ + middle@ + value@ + tail@,
{
    let mut m = String::from_str("node '");
    push_str(&mut m, id.as_str());
    push_str(&mut m, middle);
    push_str(&mut m, value.as_str());
    push_str(&mut m, tail);
    m
}

/// Appends the pre-order ids of a forest to `out`.
fn collect_node_ids(ns: &Vec<VizNode>, out: &mut Vec<String>)
    ensures
        views(final(out)@) == views(old(out)@) + forest_ids(ns@),
    decreases ns@,
{
    let mut i: usize = 0;
    while i < ns.len()
        invariant
            0 <= i <= ns@.len(),
            views(out@) == views(old(out)@) + forest_ids(ns@.take(i as int)),
        decreases ns@.len() - i,
    {
        let ghost before = views(out@);
        assert(ns@.take((i + 1) as int).drop_last() == ns@.take(i as int));
        assert(ns@.take((i + 1) as int).last() == ns@[i as int]);
        out.push(ns[i].id.clone());
        assert(views(out@) == before.push(ns@[i as int].id@));
        assert(decreases_to!(ns@ => ns@[i as int]));
        collect_node_ids(&ns[i].children, out);
        assert(forest_ids(ns@.take((i + 1) as int)) == forest_ids(ns@.take(i as int)) + tree_ids(ns@[i as int]));
        assert(tree_ids(ns@[i as int]) == seq![ns@[i as int].id@] + forest_ids(ns@[i as int].children@));
        assert(views(out@) =~= views(old(out)@) + forest_ids(ns@.take((i + 1) as int)));
        i = i + 1;
    }
    assert(ns@.take(ns@.len() as int) == ns@);
}


fn palette_has_kind(palette: &Vec<ElementType>, t: &String) -> (b: bool)
    ensures
        b == palette_has(palette@, t@),
{
    let mut i: usize = 0;
    while i < palette.len()
        invariant
            0 <= i <= palette@.len(),
            forall|j: int| 0 <= j < i ==> palette@[j].kind@ != t@,
        decreases palette@.len() - i,
    {
        if palette[i].kind == *t {
            return true;
        }
        i = i + 1;
    }
    false
}

fn check_branches(id: &String, bs: &Vec<Branch>, ids: &Vec<String>, errors: &mut Vec<String>)
    ensures
        views(final(errors)@) == views(old(errors)@) + branch_errors(id@, bs@, views(ids@)),
{
    let mut i: usize = 0;
    while i < bs.len()
        invariant
            0 <= i <= bs@.len(),
            views(errors@) == views(old(errors)@) + branch_errors(id@, bs@.take(i as int), views(ids@)),
        decreases bs@.len() - i,
    {
        assert(bs@.take((i + 1) as int).drop_last() == bs@.take(i as int));
        assert(bs@.take((i + 1) as int).last() == bs@[i as int]);
        if !contains_text(ids, &bs[i].target) {
            let m = node_message(id, "' branch targets unknown node '", &bs[i].target, "'");
            push_message(errors, m);
        }
        i = i + 1;
        assert(views(errors@) =~= views(old(errors)@) + branch_errors(id@, bs@.take(i as int), views(ids@)));
    }
    assert(bs@.take(bs@.len() as int) == bs@);
}

/// Checks one node against the model after snapping its source, then its children.
fn validate_node(
    node: &mut VizNode,
    ids: &Vec<String>,
    ucm: &UnifiedCodeModel,
    palette: &Vec<ElementType>,
    level: Level,
    errors: &mut Vec<String>,
)
    requires
        tree_fits(*old(node), *ucm),
    ensures
        snapped_tree(*old(node), *final(node), *ucm),
        views(final(errors)@) == views(old(errors)@) + tree_errors(*old(node), views(ids@), *ucm, palette@, level),
    decreases *old(node),
{
    let ghost orig = *node;
    let ghost base = views(errors@);
    let mut source = node.source.take();
    if let Some(src) = &mut source {
        snap_source(node.kind, &node.symbol, src, ucm);
    }
    node.source = source;
    let ghost after_snap = *node;
    if level != Level::Project && node.source.is_none() {
        let mut m = String::from_str("node '");
        push_str(&mut m, node.id.as_str());
        push_str(&mut m, "' missing source ref on scoped level");
        push_message(errors, m);
    }
    if let Some(src) = &node.source {
        if src.start_line == 0 || src.start_line > src.end_line {
            let mut m = String::from_str("node '");
            push_str(&mut m, node.id.as_str());
            push_str(&mut m, "' has invalid source range ");
            let a = decimal_string(src.start_line);
            push_str(&mut m, a.as_str());
            push_str(&mut m, "-");
            let b = decimal_string(src.end_line);
            push_str(&mut m, b.as_str());
            push_message(errors, m);
        }
        if !has_file(ucm, &src.file) {
            let m = node_message(&node.id, "' references unknown file '", &src.file, "'");
            push_message(errors, m);
        }
    }
    if let Some(sym) = &node.symbol {
        if !has_symbol(ucm, sym) {
            let m = node_message(&node.id, "' references unknown symbol '", sym, "'");
            push_message(errors, m);
        }
    }
    if let Some(t) = &node.element_type {
        if !palette_has_kind(palette, t) {
            let m = node_message(&node.id, "' uses unknown element_type '", t, "'");
            push_message(errors, m);
        }
    }
    check_branches(&node.id, &node.branches, ids, errors);
    assert(views(errors@) =~= base + own_errors(orig, views(ids@), *ucm, palette@, level));
    let ghost mid = views(errors@);

    let mut pending: Vec<VizNode> = Vec::new();
    std::mem::swap(&mut pending, &mut node.children);
    let mut done: Vec<VizNode> = Vec::new();
    let ghost kids = orig.children@;
    assert(kids.len() == pending.len());
    proof {
        lemma_forest_fits_each(kids, *ucm);
    }
    let mut k: usize = 0;
    while pending.len() > 0
        invariant
            kids == orig.children@,
            orig == *old(node),
            forall|i: int| 0 <= i < kids.len() ==> tree_fits(#[trigger] kids[i], *ucm),
            k <= kids.len(),
            kids.len() <= usize::MAX,
            pending@ == kids.skip(k as int),
            snapped_forest(kids.take(k as int), done@, *ucm),
            views(errors@) == mid + forest_errors(kids.take(k as int), views(ids@), *ucm, palette@, level),
        decreases pending@.len(),
    {
        let ghost done_before = done@;
        assert(k < kids.len());
        let mut c = pending.remove(0);
        assert(c == kids[k as int]);
        assert(decreases_to!(orig => orig.children));
        assert(decreases_to!(orig.children => orig.children@));
        assert(decreases_to!(orig.children@ => orig.children@[k as int]));
        assert(decreases_to!(*old(node) => c));
        validate_node(&mut c, ids, ucm, palette, level, errors);
        done.push(c);
        assert(kids.take((k + 1) as int).drop_last() == kids.take(k as int));
        assert(kids.take((k + 1) as int).last() == kids[k as int]);
        assert(done@.drop_last() == done_before);
        k = k + 1;
        assert(views(errors@) =~= mid + forest_errors(kids.take(k as int), views(ids@), *ucm, palette@, level));
        assert(pending@ =~= kids.skip(k as int));
    }
    assert(kids.take(k as int) == kids);
    node.children = done;
}


/// Snaps and checks every tree of a forest, in order.
fn validate_forest(
    ns: &mut Vec<VizNode>,
    ids: &Vec<String>,
    ucm: &UnifiedCodeModel,
    palette: &Vec<ElementType>,
    level: Level,
    errors: &mut Vec<String>,
)
    requires
        forest_fits(old(ns)@, *ucm),
    ensures
        snapped_forest(old(ns)@, final(ns)@, *ucm),
        views(final(errors)@) == views(old(errors)@) + forest_errors(old(ns)@, views(ids@), *ucm, palette@, level),
{
    let ghost kids = ns@;
    let ghost base = views(errors@);
    let mut pending: Vec<VizNode> = Vec::new();
    std::mem::swap(&mut pending, ns);
    assert(kids.len() == pending.len());
    let mut done: Vec<VizNode> = Vec::new();
    proof {
        lemma_forest_fits_each(kids, *ucm);
    }
    let mut k: usize = 0;
    while pending.len() > 0
        invariant
            forall|i: int| 0 <= i < kids.len() ==> tree_fits(#[trigger] kids[i], *ucm),
            k <= kids.len(),
            kids.len() <= usize::MAX,
            pending@ == kids.skip(k as int),
            snapped_forest(kids.take(k as int), done@, *ucm),
            views(errors@) == base + forest_errors(kids.take(k as int), views(ids@), *ucm, palette@, level),
        decreases pending@.len(),
    {
        let ghost done_before = done@;
        assert(k < kids.len());
        let mut c = pending.remove(0);
        assert(c == kids[k as int]);
        validate_node(&mut c, ids, ucm, palette, level, errors);
        done.push(c);
        assert(kids.take((k + 1) as int).drop_last() == kids.take(k as int));
        assert(kids.take((k + 1) as int).last() == kids[k as int]);
        assert(done@.drop_last() == done_before);
        k = k + 1;
        assert(views(errors@) =~= base + forest_errors(kids.take(k as int), views(ids@), *ucm, palette@, level));
        assert(pending@ =~= kids.skip(k as int));
    }
    assert(kids.take(k as int) == kids);
    *ns = done;
}

// ---------------------------------------------------------------------------
// Edges.

/// The (node id, symbol) pairs of a node and its descendants, in pre-order,
/// for the nodes that name a symbol.
pub open spec fn tree_symbols(n: VizNode) -> Seq<(Seq<char>, Seq<char>)>
    decreases n,
{
    (match n.symbol {
        Some(sym) => seq![(n.id@, sym@)],
        None => Seq::<(Seq<char>, Seq<char>)>::empty(),
    }) + forest_symbols(n.children@)
}

pub open spec fn forest_symbols(ns: Seq<VizNode>) -> Seq<(Seq<char>, Seq<char>)>
    decreases ns,
{
    if ns.len() == 0 {
        seq![]
    } else {
        forest_symbols(ns.drop_last()) + tree_symbols(ns.last())
    }
}

/// The symbol a node id stands for: that of the last node with this id that names one.
pub open spec fn symbol_of_node(pairs: Seq<(Seq<char>, Seq<char>)>, id: Seq<char>) -> Option<Seq<char>>
    decreases pairs.len(),
{
    if pairs.len() == 0 {
        None
    } else if pairs.last().0 == id {
        Some(pairs.last().1)
    } else {
        symbol_of_node(pairs.drop_last(), id)
    }
}

/// The code model records a call from symbol `from` to symbol `to`.
pub open spec fn call_recorded(ucm: UnifiedCodeModel, from: Seq<char>, to: Seq<char>) -> bool {
    exists|i: int|
        0 <= i < ucm.calls@.len() && #[trigger] ucm.calls@[i].from@ == from && ucm.calls@[i].to@ == to
}

/// The edge joins two nodes whose symbols the code model says call one another.
pub open spec fn edge_backed(e: VizEdge, pairs: Seq<(Seq<char>, Seq<char>)>, ucm: UnifiedCodeModel) -> bool {
    match (symbol_of_node(pairs, e.from@), symbol_of_node(pairs, e.to@)) {
        (Some(f), Some(t)) => call_recorded(ucm, f, t),
        _ => false,
    }
}

/// `new` is `old`, with a `Verified` status that nothing backs turned into `Inferred`.
pub open spec fn checked_edge(old: VizEdge, new: VizEdge, pairs: Seq<(Seq<char>, Seq<char>)>, ucm: UnifiedCodeModel) -> bool {
    &&& new.from == old.from
    &&& new.to == old.to
    &&& new.label == old.label
    &&& new.status == if old.status == Some(EdgeStatus::Verified) && !edge_backed(old, pairs, ucm) {
        Some(EdgeStatus::Inferred)
    } else {
        old.status
    }
}

pub open spec fn checked_edges(
    old: Seq<VizEdge>,
    new: Seq<VizEdge>,
    pairs: Seq<(Seq<char>, Seq<char>)>,
    ucm: UnifiedCodeModel,
) -> bool {
    &&& old.len() == new.len()
    &&& forall|i: int| 0 <= i < old.len() ==> checked_edge(#[trigger] old[i], new[i], pairs, ucm)
}

pub open spec fn edge_errors(edges: Seq<VizEdge>, ids: Seq<Seq<char>>) -> Seq<Seq<char>>
    decreases edges.len(),
{
    if edges.len() == 0 {
        seq![]
    } else {
        let e = edges.last();
        edge_errors(edges.drop_last(), ids) + (if ids.contains(e.from@) {
            Seq::<Seq<char>>::empty()
        } else {
            seq![msg_edge_from(e.from@)]
        }) + (if ids.contains(e.to@) {
            Seq::<Seq<char>>::empty()
        } else {
            seq![msg_edge_to(e.to@)]
        })
    }
}

fn collect_symbol_pairs(ns: &Vec<VizNode>, out: &mut Vec<(String, String)>)
    ensures
        pair_views(final(out)@) == pair_views(old(out)@) + forest_symbols(ns@),
    decreases ns@,
{
    let mut i: usize = 0;
    while i < ns.len()
        invariant
            0 <= i <= ns@.len(),
            pair_views(out@) == pair_views(old(out)@) + forest_symbols(ns@.take(i as int)),
        decreases ns@.len() - i,
    {
        let ghost before = pair_views(out@);
        assert(ns@.take((i + 1) as int).drop_last() == ns@.take(i as int));
        assert(ns@.take((i + 1) as int).last() == ns@[i as int]);
        if let Some(sym) = &ns[i].symbol {
            out.push((ns[i].id.clone(), sym.clone()));
            assert(pair_views(out@) =~= before.push((ns@[i as int].id@, sym@)));
        }
        let ghost mid = pair_views(out@);
        assert(decreases_to!(ns@ => ns@[i as int]));
        collect_symbol_pairs(&ns[i].children, out);
        assert(forest_symbols(ns@.take((i + 1) as int)) == forest_symbols(ns@.take(i as int)) + tree_symbols(ns@[i as int]));
        assert(pair_views(out@) =~= pair_views(old(out)@) + forest_symbols(ns@.take((i + 1) as int)));
        i = i + 1;
    }
    assert(ns@.take(ns@.len() as int) == ns@);
}

pub open spec fn pair_views(v: Seq<(String, String)>) -> Seq<(Seq<char>, Seq<char>)> {
    v.map_values(|p: (String, String)| (p.0@, p.1@))
}

fn symbol_of_node_in(pairs: &Vec<(String, String)>, id: &String) -> (r: Option<usize>)
    ensures
        match r {
            Some(i) => i < pairs@.len() && symbol_of_node(pair_views(pairs@), id@) == Some(pairs@[i as int].1@),
            None => symbol_of_node(pair_views(pairs@), id@) is None,
        },
{
    let mut r: Option<usize> = None;
    let mut i: usize = 0;
    while i < pairs.len()
        invariant
            0 <= i <= pairs@.len(),
            match r {
                Some(k) => k < i && symbol_of_node(pair_views(pairs@.take(i as int)), id@) == Some(pairs@[k as int].1@),
                None => symbol_of_node(pair_views(pairs@.take(i as int)), id@) is None,
            },
        decreases pairs@.len() - i,
    {
        assert(pair_views(pairs@.take((i + 1) as int)).drop_last() == pair_views(pairs@.take(i as int)));
        if pairs[i].0 == *id {
            r = Some(i);
        }
        i = i + 1;
    }
    assert(pairs@.take(pairs@.len() as int) == pairs@);
    r
}

fn call_recorded_in(ucm: &UnifiedCodeModel, from: &String, to: &String) -> (b: bool)
    ensures
        b == call_recorded(*ucm, from@, to@),
{
    let mut i: usize = 0;
    while i < ucm.calls.len()
        invariant
            0 <= i <= ucm.calls@.len(),
            forall|j: int| 0 <= j < i ==> !(ucm.calls@[j].from@ == from@ && ucm.calls@[j].to@ == to@),
        decreases ucm.calls@.len() - i,
    {
        if ucm.calls[i].from == *from && ucm.calls[i].to == *to {
            return true;
        }
        i = i + 1;
    }
    false
}

fn edge_message(head: &str, id: &String) -> (m: String)
    ensures
        m@ == head@ + id@ + "'"@,
{
    let mut m = String::from_str(head);
    push_str(&mut m, id.as_str());
    push_str(&mut m, "'");
    m
}

/// Checks that edges join known nodes and downgrades unbacked `Verified` edges.
fn check_edges(
    edges: &mut Vec<VizEdge>,
    ids: &Vec<String>,
    pairs: &Vec<(String, String)>,
    ucm: &UnifiedCodeModel,
    errors: &mut Vec<String>,
)
    ensures
        checked_edges(old(edges)@, final(edges)@, pair_views(pairs@), *ucm),
        views(final(errors)@) == views(old(errors)@) + edge_errors(old(edges)@, views(ids@)),
{
    let ghost orig = edges@;
    let ghost base = views(errors@);
    let mut i: usize = 0;
    while i < edges.len()
        invariant
            0 <= i <= edges@.len(),
            edges@.len() == orig.len(),
            forall|j: int| 0 <= j < i ==> checked_edge(#[trigger] orig[j], edges@[j], pair_views(pairs@), *ucm),
            forall|j: int| i <= j < orig.len() ==> #[trigger] edges@[j] == orig[j],
            views(errors@) == base + edge_errors(orig.take(i as int), views(ids@)),
        decreases edges@.len() - i,
    {
        assert(orig.take((i + 1) as int).drop_last() == orig.take(i as int));
        assert(orig.take((i + 1) as int).last() == orig[i as int]);
        if !contains_text(ids, &edges[i].from) {
            let m = edge_message("edge from unknown node '", &edges[i].from);
            push_message(errors, m);
        }
        if !contains_text(ids, &edges[i].to) {
            let m = edge_message("edge to unknown node '", &edges[i].to);
            push_message(errors, m);
        }
        let verified = match edges[i].status {
            Some(EdgeStatus::Verified) => true,
            _ => false,
        };
        if verified {
            let backed = match (symbol_of_node_in(pairs, &edges[i].from), symbol_of_node_in(pairs, &edges[i].to)) {
                (Some(a), Some(b)) => call_recorded_in(ucm, &pairs[a].1, &pairs[b].1),
                _ => false,
            };
            if !backed {
                let mut e = edges.remove(i);
                e.status = Some(EdgeStatus::Inferred);
                edges.insert(i, e);
            }
        }
        i = i + 1;
        assert(views(errors@) =~= base + edge_errors(orig.take(i as int), views(ids@)));
    }
    assert(orig.take(orig.len() as int) == orig);
}

// ---------------------------------------------------------------------------
// The whole check.

/// What a run of the JSON Schema check produced.
pub enum SchemaCheck {
    /// The schema text is not JSON.
    BrokenSchema,
    /// The visualization's JSON text is not JSON.
    UnreadableInstance,
    /// The schema is JSON but not a usable schema.
    UncompilableSchema,
    /// The check ran; these are its messages, one per violation.
    Checked(Vec<String>),
}

/// The lines a schema check contributes to the report.
pub open spec fn schema_messages(c: SchemaCheck) -> Seq<Seq<char>> {
    match c {
        SchemaCheck::BrokenSchema => seq!["internal: broken DSL schema"@],
        SchemaCheck::UnreadableInstance => seq!["internal: cannot serialize visualization"@],
        SchemaCheck::UncompilableSchema => seq!["internal: cannot compile DSL schema"@],
        SchemaCheck::Checked(msgs) => views(msgs@).map_values(|m: Seq<char>| "schema: "@ + m),
    }
}

/// All that is wrong with a visualization once the schema check passed.
pub open spec fn model_errors(
    viz: Visualization,
    ucm: UnifiedCodeModel,
    palette: Seq<ElementType>,
) -> Seq<Seq<char>> {
    let ids = forest_ids(viz.nodes@);
    forest_errors(viz.nodes@, ids, ucm, palette, viz.level) + edge_errors(viz.edges@, ids)
}

/// `new` is `old` with all sources snapped and unbacked `Verified` edges downgraded.
pub open spec fn validated(old: Visualization, new: Visualization, ucm: UnifiedCodeModel) -> bool {
    &&& new.title == old.title
    &&& new.level == old.level
    &&& snapped_forest(old.nodes@, new.nodes@, ucm)
    &&& checked_edges(old.edges@, new.edges@, forest_symbols(old.nodes@), ucm)
}

fn schema_lines(check: &SchemaCheck) -> (out: Vec<String>)
    ensures
        views(out@) == schema_messages(*check),
{
    match check {
        SchemaCheck::BrokenSchema => {
            let mut out = Vec::new();
            out.push(String::from_str("internal: broken DSL schema"));
            assert(views(out@) =~= schema_messages(*check));
            out
        },
        SchemaCheck::UnreadableInstance => {
            let mut out = Vec::new();
            out.push(String::from_str("internal: cannot serialize visualization"));
            assert(views(out@) =~= schema_messages(*check));
            out
        },
        SchemaCheck::UncompilableSchema => {
            let mut out = Vec::new();
            out.push(String::from_str("internal: cannot compile DSL schema"));
            assert(views(out@) =~= schema_messages(*check));
            out
        },
        SchemaCheck::Checked(msgs) => {
            let mut out: Vec<String> = Vec::new();
            let mut i: usize = 0;
            while i < msgs.len()
                invariant
                    0 <= i <= msgs@.len(),
                    views(out@) == views(msgs@).take(i as int).map_values(|m: Seq<char>| "schema: "@ + m),
                decreases msgs@.len() - i,
            {
                let ghost prev = views(out@);
                let mut line = String::from_str("schema: ");
                push_str(&mut line, msgs[i].as_str());
                out.push(line);
                assert(views(out@) =~= prev.push("schema: "@ + msgs@[i as int]@));
                assert(views(msgs@).take((i + 1) as int) =~= views(msgs@).take(i as int).push(msgs@[i as int]@));
                i = i + 1;
                assert(views(out@) =~= views(msgs@).take(i as int).map_values(|m: Seq<char>| "schema: "@ + m));
            }
            assert(views(msgs@).take(msgs@.len() as int) == views(msgs@));
            out
        },
    }
}

/// Validates a visualization whose JSON Schema check has already run.
///
/// Schema messages are reported alone. Otherwise every node's source is
/// snapped onto the code model and checked, every node is checked against the
/// model's files and symbols and the palette, edges and branches must join
/// known nodes, and `Verified` edges that no recorded call backs become
/// `Inferred`; the result is `Ok` exactly when nothing was found.
pub fn validate_checked(
    viz: &mut Visualization,
    ucm: &UnifiedCodeModel,
    palette: &Vec<ElementType>,
    check: &SchemaCheck,
) -> (r: Result<(), Vec<String>>)
    requires
        forest_fits(old(viz).nodes@, *ucm),
    ensures
        schema_messages(*check).len() > 0 ==> {
            &&& *final(viz) == *old(viz)
            &&& r matches Err(e) && views(e@) == schema_messages(*check)
        },
        schema_messages(*check).len() == 0 ==> {
            &&& validated(*old(viz), *final(viz), *ucm)
            &&& (r is Ok <==> model_errors(*old(viz), *ucm, palette@).len() == 0)
            &&& (r matches Err(e) ==> views(e@) == model_errors(*old(viz), *ucm, palette@))
        },
{
    let schema_errors = schema_lines(check);
    if schema_errors.len() > 0 {
        return Err(schema_errors);
    }
    let mut errors: Vec<String> = Vec::new();
    let mut ids: Vec<String> = Vec::new();
    collect_node_ids(&viz.nodes, &mut ids);
    assert(views(ids@) =~= forest_ids(old(viz).nodes@));
    let mut pairs: Vec<(String, String)> = Vec::new();
    collect_symbol_pairs(&viz.nodes, &mut pairs);
    assert(pair_views(pairs@) =~= forest_symbols(old(viz).nodes@));
    let level = viz.level;
    validate_forest(&mut viz.nodes, &ids, ucm, palette, level, &mut errors);
    check_edges(&mut viz.edges, &ids, &pairs, ucm, &mut errors);
    assert(views(errors@) =~= model_errors(*old(viz), *ucm, palette@));
    if errors.len() == 0 {
        Ok(())
    } else {
        Err(errors)
    }
}


/// What checking the JSON text `instance` against the JSON Schema text `schema` yields.
pub uninterp spec fn schema_check_outcome(schema: Seq<char>, instance: Seq<char>) -> SchemaCheck;

/// Parses both texts with `serde_json::from_str`, compiles the schema with
/// `jsonschema::validator_for` and lists the `Display` text of every error of
/// `Validator::iter_errors` on the instance. The contract claims only that the
/// outcome is a function of the two texts; which messages come out is
/// jsonschema's and is left unsaid.
#[verifier::external_body]
fn run_schema_check(schema: &str, instance: &str) -> (r: SchemaCheck)
    ensures
        r == schema_check_outcome(schema@, instance@),
{
    let Ok(schema) = serde_json::from_str::<serde_json::Value>(schema) else {
        return SchemaCheck::BrokenSchema;
    };
    let Ok(instance) = serde_json::from_str::<serde_json::Value>(instance) else {
        return SchemaCheck::UnreadableInstance;
    };
    let Ok(validator) = jsonschema::validator_for(&schema) else {
        return SchemaCheck::UncompilableSchema;
    };
    SchemaCheck::Checked(validator.iter_errors(&instance).map(|e| e.to_string()).collect())
}

/// Validates an LLM-produced visualization against the DSL's JSON Schema
/// (`schema_json`) and the code model; `instance_json` is the visualization
/// written as JSON. See `validate_checked` for what is checked and changed.
pub fn validate(
    viz: &mut Visualization,
    ucm: &UnifiedCodeModel,
    palette: &Vec<ElementType>,
    schema_json: &str,
    instance_json: &str,
) -> (r: Result<(), Vec<String>>)
    requires
        forest_fits(old(viz).nodes@, *ucm),
    ensures
        ({
            let check = schema_check_outcome(schema_json@, instance_json@);
            &&& schema_messages(check).len() > 0 ==> {
                &&& *final(viz) == *old(viz)
                &&& r matches Err(e) && views(e@) == schema_messages(check)
            }
            &&& schema_messages(check).len() == 0 ==> {
                &&& validated(*old(viz), *final(viz), *ucm)
                &&& (r is Ok <==> model_errors(*old(viz), *ucm, palette@).len() == 0)
                &&& (r matches Err(e) ==> views(e@) == model_errors(*old(viz), *ucm, palette@))
            }
        }),
{
    let check = run_schema_check(schema_json, instance_json);
    validate_checked(viz, ucm, palette, &check)
}

// ---------------------------------------------------------------------------
// What an accepted visualization guarantees.

/// A node as the validator accepts it: on a scoped level it has a source;
/// a source lies in a file of the model, from line one on, its start no
/// later than its end; its symbol and element type are known; its branches
/// lead to nodes of the diagram.
pub open spec fn grounded_node(
    n: VizNode,
    ucm: UnifiedCodeModel,
    palette: Seq<ElementType>,
    level: Level,
    ids: Seq<Seq<char>>,
) -> bool {
    &&& level != Level::Project ==> n.source is Some
    &&& n.source matches Some(src) ==> file_known(ucm, src.file@) && 1 <= src.start_line && src.start_line <= src.end_line
    &&& n.symbol matches Some(sym) ==> symbol_known(ucm, sym@)
    &&& n.element_type matches Some(t) ==> palette_has(palette, t@)
    &&& forall|b: int| 0 <= b < n.branches@.len() ==> ids.contains(#[trigger] n.branches@[b].target@)
}

proof fn lemma_branch_errors_empty(id: Seq<char>, bs: Seq<Branch>, ids: Seq<Seq<char>>)
    requires
        branch_errors(id, bs, ids).len() == 0,
    ensures
        forall|b: int| 0 <= b < bs.len() ==> ids.contains(#[trigger] bs[b].target@),
    decreases bs.len(),
{
    if bs.len() > 0 {
        lemma_branch_errors_empty(id, bs.drop_last(), ids);
        assert forall|b: int| 0 <= b < bs.len() - 1 implies #[trigger] bs[b] == bs.drop_last()[b] by {}
    }
}

proof fn lemma_tree_grounded(
    old: VizNode,
    new: VizNode,
    ids: Seq<Seq<char>>,
    ucm: UnifiedCodeModel,
    palette: Seq<ElementType>,
    level: Level,
)
    requires
        snapped_tree(old, new, ucm),
        tree_errors(old, ids, ucm, palette, level).len() == 0,
    ensures
        forall|i: int| 0 <= i < crate::pipeline::tree_flat(new).len()
            ==> grounded_node(#[trigger] crate::pipeline::tree_flat(new)[i], ucm, palette, level, ids),
    decreases old,
{
    let own = own_errors(old, ids, ucm, palette, level);
    assert(own.len() == 0);
    lemma_branch_errors_empty(old.id@, old.branches@, ids);
    if let Some(o) = old.source {
        let (s, e) = snapped(old.kind, old.symbol, o, ucm);
        assert(!(s == 0 || s > e));
        assert(file_known(ucm, o.file@));
    }
    assert(grounded_node(new, ucm, palette, level, ids));
    assert(decreases_to!(old => old.children));
    lemma_forest_grounded(old.children@, new.children@, ids, ucm, palette, level);
    let t = crate::pipeline::tree_flat(new);
    let rest = crate::pipeline::forest_flat(new.children@);
    assert(t == seq![new] + rest);
    assert forall|i: int| 0 <= i < t.len() implies grounded_node(#[trigger] t[i], ucm, palette, level, ids) by {
        if i > 0 {
            assert(t[i] == rest[i - 1]);
        }
    }
}

proof fn lemma_forest_grounded(
    old: Seq<VizNode>,
    new: Seq<VizNode>,
    ids: Seq<Seq<char>>,
    ucm: UnifiedCodeModel,
    palette: Seq<ElementType>,
    level: Level,
)
    requires
        snapped_forest(old, new, ucm),
        forest_errors(old, ids, ucm, palette, level).len() == 0,
    ensures
        forall|i: int| 0 <= i < crate::pipeline::forest_flat(new).len()
            ==> grounded_node(#[trigger] crate::pipeline::forest_flat(new)[i], ucm, palette, level, ids),
    decreases old,
{
    if old.len() > 0 {
        assert(decreases_to!(old => old.drop_last()));
        assert(decreases_to!(old => old.last()));
        lemma_forest_grounded(old.drop_last(), new.drop_last(), ids, ucm, palette, level);
        lemma_tree_grounded(old.last(), new.last(), ids, ucm, palette, level);
        let a = crate::pipeline::forest_flat(new.drop_last());
        let b = crate::pipeline::tree_flat(new.last());
        let f = crate::pipeline::forest_flat(new);
        assert(f == a + b);
        assert forall|i: int| 0 <= i < f.len() implies grounded_node(#[trigger] f[i], ucm, palette, level, ids) by {
            if i < a.len() {
                assert(f[i] == a[i]);
            } else {
                assert(f[i] == b[i - a.len()]);
            }
        }
    }
}

proof fn lemma_tree_same_ids(old: VizNode, new: VizNode, ucm: UnifiedCodeModel)
    requires
        snapped_tree(old, new, ucm),
    ensures
        tree_ids(new) == tree_ids(old),
        tree_symbols(new) == tree_symbols(old),
    decreases old,
{
    assert(decreases_to!(old => old.children));
    lemma_forest_same_ids(old.children@, new.children@, ucm);
}

proof fn lemma_forest_same_ids(old: Seq<VizNode>, new: Seq<VizNode>, ucm: UnifiedCodeModel)
    requires
        snapped_forest(old, new, ucm),
    ensures
        forest_ids(new) == forest_ids(old),
        forest_symbols(new) == forest_symbols(old),
    decreases old,
{
    if old.len() > 0 {
        assert(decreases_to!(old => old.drop_last()));
        assert(decreases_to!(old => old.last()));
        lemma_forest_same_ids(old.drop_last(), new.drop_last(), ucm);
        lemma_tree_same_ids(old.last(), new.last(), ucm);
    }
}

proof fn lemma_edge_errors_empty(edges: Seq<VizEdge>, ids: Seq<Seq<char>>)
    requires
        edge_errors(edges, ids).len() == 0,
    ensures
        forall|i: int| 0 <= i < edges.len() ==> ids.contains(#[trigger] edges[i].from@) && ids.contains(edges[i].to@),
    decreases edges.len(),
{
    if edges.len() > 0 {
        lemma_edge_errors_empty(edges.drop_last(), ids);
        assert forall|i: int| 0 <= i < edges.len() - 1 implies #[trigger] edges[i] == edges.drop_last()[i] by {}
    }
}

/// A visualization the validator accepts describes only what the code model
/// holds: no invented files, symbols, element types or links. Every node is
/// grounded (see `grounded_node`); the nodes keep their ids; every edge joins
/// two nodes of the diagram; and every edge still marked verified joins
/// nodes whose symbols the model records a call between.
pub proof fn law_accepted_is_grounded(
    old: Visualization,
    new: Visualization,
    ucm: UnifiedCodeModel,
    palette: Seq<ElementType>,
)
    requires
        validated(old, new, ucm),
        model_errors(old, ucm, palette).len() == 0,
    ensures
        forest_ids(new.nodes@) == forest_ids(old.nodes@),
        forall|i: int| 0 <= i < crate::pipeline::forest_flat(new.nodes@).len()
            ==> grounded_node(#[trigger] crate::pipeline::forest_flat(new.nodes@)[i], ucm, palette, new.level, forest_ids(new.nodes@)),
        forall|i: int| 0 <= i < new.edges@.len()
            ==> forest_ids(new.nodes@).contains(#[trigger] new.edges@[i].from@) && forest_ids(new.nodes@).contains(new.edges@[i].to@),
        forall|i: int| 0 <= i < new.edges@.len() && (#[trigger] new.edges@[i]).status == Some(EdgeStatus::Verified)
            ==> edge_backed(new.edges@[i], forest_symbols(new.nodes@), ucm),
{
    let ids = forest_ids(old.nodes@);
    assert(forest_errors(old.nodes@, ids, ucm, palette, old.level).len() == 0);
    assert(edge_errors(old.edges@, ids).len() == 0);
    lemma_forest_grounded(old.nodes@, new.nodes@, ids, ucm, palette, old.level);
    lemma_forest_same_ids(old.nodes@, new.nodes@, ucm);
    lemma_edge_errors_empty(old.edges@, ids);
    assert forall|i: int| 0 <= i < new.edges@.len() implies forest_ids(new.nodes@).contains(#[trigger] new.edges@[i].from@)
        && forest_ids(new.nodes@).contains(new.edges@[i].to@) by {
        assert(checked_edge(old.edges@[i], new.edges@[i], forest_symbols(old.nodes@), ucm));
    }
    assert forall|i: int| 0 <= i < new.edges@.len() && (#[trigger] new.edges@[i]).status == Some(EdgeStatus::Verified)
        implies edge_backed(new.edges@[i], forest_symbols(new.nodes@), ucm) by {
        assert(checked_edge(old.edges@[i], new.edges@[i], forest_symbols(old.nodes@), ucm));
    }
}

/// Validation keeps an edge marked verified exactly when it was so marked and
/// the code model records a call from the symbol of the edge's source node to
/// the symbol of its target node, in that direction. Any other verified edge
/// becomes inferred, and an edge not marked verified keeps its status.
pub proof fn law_verified_edges_follow_calls(old: Visualization, new: Visualization, ucm: UnifiedCodeModel, i: int)
    requires
        validated(old, new, ucm),
        0 <= i < old.edges@.len(),
    ensures
        new.edges@.len() == old.edges@.len(),
        new.edges@[i].status == Some(EdgeStatus::Verified) <==> (
            old.edges@[i].status == Some(EdgeStatus::Verified)
            && symbol_of_node(forest_symbols(old.nodes@), old.edges@[i].from@) is Some
            && symbol_of_node(forest_symbols(old.nodes@), old.edges@[i].to@) is Some
            && exists|k: int| 0 <= k < ucm.calls@.len()
                && (#[trigger] ucm.calls@[k]).from@ == symbol_of_node(forest_symbols(old.nodes@), old.edges@[i].from@)->0
                && ucm.calls@[k].to@ == symbol_of_node(forest_symbols(old.nodes@), old.edges@[i].to@)->0
        ),
        old.edges@[i].status == Some(EdgeStatus::Verified) && new.edges@[i].status != Some(EdgeStatus::Verified)
            ==> new.edges@[i].status == Some(EdgeStatus::Inferred),
        old.edges@[i].status != Some(EdgeStatus::Verified) ==> new.edges@[i].status == old.edges@[i].status,
{
    assert(checked_edge(old.edges@[i], new.edges@[i], forest_symbols(old.nodes@), ucm));
}

} // verus!
