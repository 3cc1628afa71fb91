//! Builds scope-tree visualizations from the code model's entities and symbols.
use vstd::prelude::*;
use vstd::string::*;
use crate::dsl::{CrossRef, Layer, Level, NodeKind, SourceRef, Visualization, VizNode};
use crate::order::{first_match, lemma_first_match_prefix, lemma_first_match_step, SortKey, stable_sorted, stable_sort};
use crate::text::{opt_view, push_str, same_text};
use crate::ucm::{Call, Entity, SourceRange, Symbol, SymbolKind, UnifiedCodeModel};
use crate::validate::symbol_index;

verus! {

// ---------------------------------------------------------------------------
// Entity kinds.

/// The node kind an entity kind is drawn as.
pub open spec fn kind_for(kind: Seq<char>) -> NodeKind {
    if kind == "function"@ || kind == "method"@ || kind == "type"@ || kind == "interface"@ || kind == "file"@ {
        NodeKind::Group
    } else if kind == "call"@ {
        NodeKind::Call
    } else if kind == "if"@ || kind == "else"@ {
        NodeKind::Decision
    } else if kind == "loop"@ {
        NodeKind::Loop
    } else if kind == "return"@ {
        NodeKind::Output
    } else if kind == "variable"@ {
        NodeKind::State
    } else {
        NodeKind::Action
    }
}

/// The layer an entity kind is drawn on.
pub open spec fn layer_of(kind: Seq<char>) -> Layer {
    if kind == "call"@ {
        Layer::Calls
    } else if kind == "return"@ {
        Layer::Data
    } else if kind == "variable"@ {
        Layer::State
    } else {
        Layer::Flow
    }
}

/// The label an entity gets when the analyzer gave it none.
pub open spec fn humanized(name: Seq<char>, kind: Seq<char>) -> Seq<char> {
    if name.len() == 0 {
        kind
    } else if kind == "function"@ || kind == "method"@ {
        "Функция "@ + name
    } else if kind == "type"@ {
        "Тип "@ + name
    } else if kind == "interface"@ {
        "Интерфейс "@ + name
    } else if kind == "variable"@ {
        "Переменная "@ + name
    } else if kind == "call"@ {
        "Вызов "@ + name
    } else if kind == "if"@ {
        "Условие"@
    } else if kind == "else"@ {
        "Иначе"@
    } else if kind == "loop"@ {
        "Цикл"@
    } else if kind == "return"@ {
        "Возврат"@
    } else {
        name
    }
}

fn node_kind_for(kind: &str) -> (k: NodeKind)
    ensures
        k == kind_for(kind@),
{
    if same_text(kind, "function") || same_text(kind, "method") || same_text(kind, "type")
        || same_text(kind, "interface") || same_text(kind, "file") {
        NodeKind::Group
    } else if same_text(kind, "call") {
        NodeKind::Call
    } else if same_text(kind, "if") || same_text(kind, "else") {
        NodeKind::Decision
    } else if same_text(kind, "loop") {
        NodeKind::Loop
    } else if same_text(kind, "return") {
        NodeKind::Output
    } else if same_text(kind, "variable") {
        NodeKind::State
    } else {
        NodeKind::Action
    }
}

/// The layer for an entity kind.
pub fn layer_for(kind: &str) -> (l: Layer)
    ensures
        l == layer_of(kind@),
{
    if same_text(kind, "call") {
        Layer::Calls
    } else if same_text(kind, "return") {
        Layer::Data
    } else if same_text(kind, "variable") {
        Layer::State
    } else {
        Layer::Flow
    }
}

fn prefixed(prefix: &str, name: &str) -> (s: String)
    ensures
        s@ == prefix@ + name@,
{
    let mut s = String::from_str(prefix);
    push_str(&mut s, name);
    s
}

/// A readable Russian label for an entity without one.
pub fn humanize(name: &str, kind: &str) -> (s: String)
    ensures
        s@ == humanized(name@, kind@),
{
    if name.unicode_len() == 0 {
        kind.to_owned()
    } else if same_text(kind, "function") || same_text(kind, "method") {
        prefixed("Функция ", name)
    } else if same_text(kind, "type") {
        prefixed("Тип ", name)
    } else if same_text(kind, "interface") {
        prefixed("Интерфейс ", name)
    } else if same_text(kind, "variable") {
        prefixed("Переменная ", name)
    } else if same_text(kind, "call") {
        prefixed("Вызов ", name)
    } else if same_text(kind, "if") {
        String::from_str("Условие")
    } else if same_text(kind, "else") {
        String::from_str("Иначе")
    } else if same_text(kind, "loop") {
        String::from_str("Цикл")
    } else if same_text(kind, "return") {
        String::from_str("Возврат")
    } else {
        name.to_owned()
    }
}


// ---------------------------------------------------------------------------
// Entity trees.

/// An entity as plain texts and numbers.
pub struct EntityView {
    pub id: Seq<char>,
    pub kind: Seq<char>,
    pub name: Seq<char>,
    pub label: Seq<char>,
    pub symbol: Seq<char>,
    pub callee: Seq<char>,
    pub condition: Seq<char>,
    pub file: Seq<char>,
    pub start_line: u32,
    pub end_line: u32,
}

pub open spec fn entity_view(e: Entity) -> EntityView {
    EntityView {
        id: e.id@,
        kind: e.kind@,
        name: e.name@,
        label: e.label@,
        symbol: e.symbol@,
        callee: e.callee@,
        condition: e.condition@,
        file: e.source.file@,
        start_line: e.source.start_line,
        end_line: e.source.end_line,
    }
}

/// An entity index with the start line it is ordered by.
pub struct LineIndex {
    pub line: u32,
    pub index: usize,
}

impl SortKey for LineIndex {
    open spec fn precedes(&self, other: &Self) -> bool {
        self.line < other.line
    }

    fn sorts_before(&self, other: &Self) -> (r: bool) {
        self.line < other.line
    }
}

/// The indices of the entities of file `file` whose parent is `pid`, in model order.
pub open spec fn kid_indices(es: Seq<Entity>, file: Seq<char>, pid: Seq<char>) -> Seq<int>
    decreases es.len(),
{
    if es.len() == 0 {
        seq![]
    } else {
        let e = es.last();
        kid_indices(es.drop_last(), file, pid) + if e.source.file@ == file && e.parent_id@.len() > 0
            && e.parent_id@ == pid {
            seq![es.len() - 1]
        } else {
            Seq::<int>::empty()
        }
    }
}

/// The children of entity `pid` in file `file`, stably ordered by start line.
pub open spec fn sorted_kids(es: Seq<Entity>, file: Seq<char>, pid: Seq<char>) -> Seq<LineIndex> {
    stable_sorted(
        kid_indices(es, file, pid).map_values(
            |i: int| LineIndex { line: es[i].source.start_line, index: i as usize },
        ),
    )
}

/// Building the tree under `e` stops within `fuel` levels: no entity below it
/// is its own ancestor.
pub open spec fn builds_within(es: Seq<Entity>, file: Seq<char>, e: EntityView, fuel: nat) -> bool
    decreases fuel,
{
    fuel > 0 && {
        let ks = sorted_kids(es, file, e.id);
        forall|j: int|
            0 <= j < ks.len() ==> builds_within(es, file, entity_view(es[#[trigger] ks[j].index as int]), (fuel - 1) as nat)
    }
}

/// The label of an entity the analyzer left unlabeled: a decision shows its
/// condition (`if <condition>`, or `else` for an else block without one), a
/// loop its header (`range <expr>` for a range loop, else `loop <header>`);
/// anything else, and a decision or loop without a condition, gets its
/// humanized name.
pub open spec fn entity_label(e: EntityView) -> Seq<char> {
    let kind = kind_for(e.kind);
    if e.label.len() > 0 {
        e.label
    } else if kind == NodeKind::Decision && e.condition.len() > 0 {
        "if "@ + e.condition
    } else if kind == NodeKind::Decision && e.kind == "else"@ {
        "else"@
    } else if kind == NodeKind::Loop && e.condition.len() > 0 {
        if e.name == "range"@ { "range "@ + e.condition } else { "loop "@ + e.condition }
    } else {
        humanized(e.name, e.kind)
    }
}

/// The node an entity becomes, apart from its children and cross references.
pub open spec fn entity_payload(e: EntityView, n: VizNode) -> bool {
    let kind = kind_for(e.kind);
    let base_symbol = if e.symbol.len() == 0 { None } else { Some(e.symbol) };
    &&& n.id@ == e.id
    &&& n.kind == kind
    &&& n.label@ == entity_label(e)
    &&& n.layer == layer_of(e.kind)
    &&& n.source matches Some(src) && src.file@ == e.file && src.start_line == e.start_line && src.end_line == e.end_line
    &&& n.element_type is None
    &&& n.tests is None
    &&& n.confidence is None
    &&& n.group_id is None
    &&& n.coverage_ids@.len() == 0
    &&& n.branches@.len() == 0
    &&& n.data_in@.len() == 0
    &&& n.data_out@.len() == 0
    &&& n.effects@.len() == 0
    &&& if kind == NodeKind::Call && e.callee.len() > 0 {
        &&& n.summary matches Some(s) && s@ == "→ "@ + e.callee
        &&& n.symbol matches Some(s) && s@ == e.callee
    } else if (kind == NodeKind::Decision || kind == NodeKind::Loop) && e.condition.len() > 0 {
        &&& n.summary matches Some(s) && s@ == e.condition
        &&& opt_view(n.symbol) == base_symbol
    } else {
        &&& n.summary is None
        &&& opt_view(n.symbol) == base_symbol
    }
}

/// `n` is the node built for entity `e`: its payload, no cross references
/// yet, and one child per child entity in start-line order.
pub open spec fn built_node(es: Seq<Entity>, file: Seq<char>, e: EntityView, fuel: nat, n: VizNode) -> bool
    decreases fuel,
{
    fuel > 0 && {
        let ks = sorted_kids(es, file, e.id);
        &&& entity_payload(e, n)
        &&& n.cross_refs@.len() == 0
        &&& n.children@.len() == ks.len()
        &&& forall|j: int|
            0 <= j < ks.len() ==> built_node(
                es,
                file,
                entity_view(es[#[trigger] ks[j].index as int]),
                (fuel - 1) as nat,
                n.children@[j],
            )
    }
}

fn kids_of(es: &Vec<Entity>, file: &String, pid: &String) -> (ks: Vec<LineIndex>)
    ensures
        ks@ == sorted_kids(es@, file@, pid@),
        forall|j: int| 0 <= j < ks@.len() ==> (#[trigger] ks@[j]).index < es@.len(),
{
    let mut v: Vec<LineIndex> = Vec::new();
    let mut i: usize = 0;
    while i < es.len()
        invariant
            0 <= i <= es@.len(),
            v@ == kid_indices(es@.take(i as int), file@, pid@).map_values(
                |k: int| LineIndex { line: es@[k].source.start_line, index: k as usize },
            ),
            forall|j: int| 0 <= j < v@.len() ==> (#[trigger] v@[j]).index < i,
        decreases es@.len() - i,
    {
        assert(es@.take((i + 1) as int).drop_last() == es@.take(i as int));
        let e = &es[i];
        if e.source.file == *file && e.parent_id.unicode_len() > 0 && e.parent_id == *pid {
            v.push(LineIndex { line: e.source.start_line, index: i });
        }
        i = i + 1;
        assert(v@ =~= kid_indices(es@.take(i as int), file@, pid@).map_values(
            |k: int| LineIndex { line: es@[k].source.start_line, index: k as usize },
        ));
    }
    assert(es@.take(es@.len() as int) == es@);
    let ks = stable_sort(v);
    proof {
        crate::order::lemma_stable_sorted_members(v@);
    }
    ks
}


fn empty_node(id: String, kind: NodeKind, label: String, layer: Layer) -> (n: VizNode)
    ensures
        n.id == id,
        n.kind == kind,
        n.label == label,
        n.layer == layer,
        n.source is None,
        n.element_type is None,
        n.symbol is None,
        n.summary is None,
        n.coverage_ids@.len() == 0,
        n.group_id is None,
        n.tests is None,
        n.confidence is None,
        n.children@.len() == 0,
        n.branches@.len() == 0,
        n.data_in@.len() == 0,
        n.data_out@.len() == 0,
        n.effects@.len() == 0,
        n.cross_refs@.len() == 0,
{
    VizNode {
        id,
        kind,
        label,
        layer,
        source: None,
        element_type: None,
        symbol: None,
        summary: None,
        coverage_ids: Vec::new(),
        group_id: None,
        tests: None,
        confidence: None,
        children: Vec::new(),
        branches: Vec::new(),
        data_in: Vec::new(),
        data_out: Vec::new(),
        effects: Vec::new(),
        cross_refs: Vec::new(),
    }
}

fn entity_label_of(e: &Entity, kind: NodeKind) -> (l: String)
    requires
        kind == kind_for(e.kind@),
    ensures
        l@ == entity_label(entity_view(*e)),
{
    if e.label.unicode_len() > 0 {
        e.label.clone()
    } else if kind == NodeKind::Decision && e.condition.unicode_len() > 0 {
        prefixed("if ", e.condition.as_str())
    } else if kind == NodeKind::Decision && same_text(e.kind.as_str(), "else") {
        String::from_str("else")
    } else if kind == NodeKind::Loop && e.condition.unicode_len() > 0 {
        if same_text(e.name.as_str(), "range") {
            prefixed("range ", e.condition.as_str())
        } else {
            prefixed("loop ", e.condition.as_str())
        }
    } else {
        humanize(e.name.as_str(), e.kind.as_str())
    }
}

/// Builds the node for entity `e` and, recursively, its children.
fn build_node(es: &Vec<Entity>, file: &String, e: &Entity, Ghost(fuel): Ghost<nat>) -> (n: VizNode)
    requires
        builds_within(es@, file@, entity_view(*e), fuel),
    ensures
        built_node(es@, file@, entity_view(*e), fuel, n),
    decreases fuel,
{
    let ks = kids_of(es, file, &e.id);
    let mut children: Vec<VizNode> = Vec::new();
    let mut j: usize = 0;
    while j < ks.len()
        invariant
            0 <= j <= ks@.len(),
            ks@ == sorted_kids(es@, file@, e.id@),
            forall|k: int| 0 <= k < ks@.len() ==> (#[trigger] ks@[k]).index < es@.len(),
            builds_within(es@, file@, entity_view(*e), fuel),
            children@.len() == j,
            forall|k: int|
                0 <= k < j ==> built_node(
                    es@,
                    file@,
                    entity_view(es@[#[trigger] ks@[k].index as int]),
                    (fuel - 1) as nat,
                    children@[k],
                ),
        decreases ks@.len() - j,
    {
        assert(sorted_kids(es@, file@, entity_view(*e).id)[j as int].index == ks@[j as int].index);
        assert(builds_within(es@, file@, entity_view(es@[ks@[j as int].index as int]), (fuel - 1) as nat));
        let child = build_node(es, file, &es[ks[j].index], Ghost((fuel - 1) as nat));
        children.push(child);
        j = j + 1;
    }
    let kind = node_kind_for(e.kind.as_str());
    let label = entity_label_of(e, kind);
    let mut n = empty_node(e.id.clone(), kind, label, layer_for(e.kind.as_str()));
    n.source = Some(SourceRef {
        file: e.source.file.clone(),
        start_line: e.source.start_line,
        end_line: e.source.end_line,
    });
    if e.symbol.unicode_len() > 0 {
        n.symbol = Some(e.symbol.clone());
    }
    if (kind == NodeKind::Decision || kind == NodeKind::Loop) && e.condition.unicode_len() > 0 {
        n.summary = Some(e.condition.clone());
    }
    if kind == NodeKind::Call && e.callee.unicode_len() > 0 {
        let mut summary = String::from_str("→ ");
        push_str(&mut summary, e.callee.as_str());
        n.summary = Some(summary);
        n.symbol = Some(e.callee.clone());
    }
    n.children = children;
    n
}


// ---------------------------------------------------------------------------
// Cross references.

pub open spec fn ref_views(v: Seq<CrossRef>) -> Seq<(Seq<char>, Seq<char>, Seq<char>)> {
    v.map_values(|r: CrossRef| (r.id@, r.file@, r.label@))
}

/// References back to every known caller of `target`, in call order.
pub open spec fn caller_refs(calls: Seq<Call>, syms: Seq<Symbol>, target: Seq<char>) -> Seq<(Seq<char>, Seq<char>, Seq<char>)>
    decreases calls.len(),
{
    if calls.len() == 0 {
        seq![]
    } else {
        let c = calls.last();
        caller_refs(calls.drop_last(), syms, target) + if c.to@ == target {
            match symbol_index(syms, c.from@) {
                Some(j) => seq![
                    (c.from@, syms[j].source.file@, "← "@ + syms[j].name@ + " in "@ + syms[j].source.file@),
                ],
                None => Seq::<(Seq<char>, Seq<char>, Seq<char>)>::empty(),
            }
        } else {
            Seq::<(Seq<char>, Seq<char>, Seq<char>)>::empty()
        }
    }
}

/// The cross references a node of this kind naming this symbol gets: a call
/// points forward to its callee's file, anything else back to its callers.
pub open spec fn refs_for(kind: NodeKind, symbol: Option<String>, ucm: UnifiedCodeModel) -> Seq<(Seq<char>, Seq<char>, Seq<char>)> {
    match symbol {
        None => seq![],
        Some(sym) => match symbol_index(ucm.symbols@, sym@) {
            None => seq![],
            Some(i) => if kind == NodeKind::Call {
                let target = ucm.symbols@[i];
                seq![(sym@, target.source.file@, "→ "@ + target.name@ + " in "@ + target.source.file@)]
            } else {
                caller_refs(ucm.calls@, ucm.symbols@, sym@)
            },
        },
    }
}

/// The back reference to the known symbol `id`: its id, its file, and "← name in file".
pub open spec fn back_ref(syms: Seq<Symbol>, id: Seq<char>) -> (Seq<char>, Seq<char>, Seq<char>) {
    let s = syms[symbol_index(syms, id)->0];
    (id, s.source.file@, "← "@ + s.name@ + " in "@ + s.source.file@)
}

/// `x` is the back reference of a call into `t` whose caller is known.
pub open spec fn from_caller(calls: Seq<Call>, syms: Seq<Symbol>, t: Seq<char>, x: (Seq<char>, Seq<char>, Seq<char>)) -> bool {
    exists|c: int|
        0 <= c < calls.len() && (#[trigger] calls[c]).to@ == t && symbol_index(syms, calls[c].from@) is Some
        && x == back_ref(syms, calls[c].from@)
}

proof fn lemma_caller_refs(calls: Seq<Call>, syms: Seq<Symbol>, t: Seq<char>)
    ensures
        forall|r: int| 0 <= r < caller_refs(calls, syms, t).len()
            ==> from_caller(calls, syms, t, #[trigger] caller_refs(calls, syms, t)[r]),
        forall|c: int| 0 <= c < calls.len() && (#[trigger] calls[c]).to@ == t && symbol_index(syms, calls[c].from@) is Some
            ==> exists|r: int| 0 <= r < caller_refs(calls, syms, t).len() && caller_refs(calls, syms, t)[r].0 == calls[c].from@,
    decreases calls.len(),
{
    if calls.len() > 0 {
        let d = calls.drop_last();
        let n = calls.len() - 1;
        lemma_caller_refs(d, syms, t);
        let pre = caller_refs(d, syms, t);
        let all = caller_refs(calls, syms, t);
        assert forall|k: int| 0 <= k < n implies #[trigger] calls[k] == d[k] by {}
        let c = calls.last();
        assert(calls[n] == c);
        let tail = if c.to@ == t {
            match symbol_index(syms, c.from@) {
                Some(j) => seq![
                    (c.from@, syms[j].source.file@, "← "@ + syms[j].name@ + " in "@ + syms[j].source.file@),
                ],
                None => Seq::<(Seq<char>, Seq<char>, Seq<char>)>::empty(),
            }
        } else {
            Seq::<(Seq<char>, Seq<char>, Seq<char>)>::empty()
        };
        assert(all == pre + tail);
        if tail.len() > 0 {
            assert(tail[0] == back_ref(syms, c.from@));
        }
        assert forall|r: int| 0 <= r < all.len() implies from_caller(calls, syms, t, #[trigger] all[r]) by {
            if r < pre.len() {
                assert(all[r] == pre[r]);
                assert(from_caller(d, syms, t, pre[r]));
                let k = choose|k: int|
                    0 <= k < d.len() && (#[trigger] d[k]).to@ == t && symbol_index(syms, d[k].from@) is Some
                    && pre[r] == back_ref(syms, d[k].from@);
                assert(calls[k] == d[k]);
            } else {
                assert(all[r] == tail[0]);
                assert(calls[n].to@ == t);
            }
        }
        assert forall|k: int| 0 <= k < calls.len() && (#[trigger] calls[k]).to@ == t && symbol_index(syms, calls[k].from@) is Some
            implies exists|r: int| 0 <= r < all.len() && all[r].0 == calls[k].from@ by {
            if k < n {
                assert(calls[k] == d[k]);
                let r = choose|r: int| 0 <= r < pre.len() && pre[r].0 == d[k].from@;
                assert(all[r] == pre[r]);
            } else {
                assert(all[pre.len() as int] == tail[0]);
            }
        }
    }
}

/// `x` points back at the caller of a call that the model records into `t`:
/// it holds the caller's id and the file of a symbol with that id, and reads
/// "← name in file".
pub open spec fn caller_ref(ucm: UnifiedCodeModel, t: Seq<char>, x: CrossRef) -> bool {
    exists|c: int, j: int|
        #![trigger ucm.calls@[c], ucm.symbols@[j]]
        0 <= c < ucm.calls@.len() && 0 <= j < ucm.symbols@.len()
        && ucm.calls@[c].to@ == t
        && ucm.symbols@[j].id@ == ucm.calls@[c].from@
        && x.id@ == ucm.calls@[c].from@
        && x.file@ == ucm.symbols@[j].source.file@
        && x.label@ == "← "@ + ucm.symbols@[j].name@ + " in "@ + ucm.symbols@[j].source.file@
}

/// A node other than a call that names symbol `t` is given back references
/// from the callers of `t`: each reference points at the caller of a call
/// recorded into `t`, so no reference comes from a call into another symbol,
/// and when `t` is a known symbol every call into it from a known caller
/// gives one. A node naming an unknown symbol gets none.
pub proof fn law_incoming_refs(n: VizNode, ucm: UnifiedCodeModel)
    requires
        ref_views(n.cross_refs@) == refs_for(n.kind, n.symbol, ucm),
        n.kind != NodeKind::Call,
        n.symbol is Some,
    ensures
        forall|r: int| 0 <= r < n.cross_refs@.len() ==> caller_ref(ucm, n.symbol->0@, #[trigger] n.cross_refs@[r]),
        (exists|j: int| 0 <= j < ucm.symbols@.len() && (#[trigger] ucm.symbols@[j]).id@ == n.symbol->0@) ==> forall|c: int|
            0 <= c < ucm.calls@.len() && (#[trigger] ucm.calls@[c]).to@ == n.symbol->0@
            && (exists|j: int| 0 <= j < ucm.symbols@.len() && (#[trigger] ucm.symbols@[j]).id@ == ucm.calls@[c].from@)
            ==> exists|r: int| 0 <= r < n.cross_refs@.len() && (#[trigger] n.cross_refs@[r]).id@ == ucm.calls@[c].from@,
        (forall|j: int| 0 <= j < ucm.symbols@.len() ==> (#[trigger] ucm.symbols@[j]).id@ != n.symbol->0@)
            ==> n.cross_refs@.len() == 0,
{
    let t = n.symbol->0@;
    let calls = ucm.calls@;
    let syms = ucm.symbols@;
    let refs = ref_views(n.cross_refs@);
    crate::validate::lemma_symbol_index(syms, t);
    lemma_caller_refs(calls, syms, t);
    assert forall|r: int| 0 <= r < n.cross_refs@.len() implies #[trigger] refs[r] == (
        n.cross_refs@[r].id@, n.cross_refs@[r].file@, n.cross_refs@[r].label@) by {}
    if symbol_index(syms, t) is Some {
        assert(refs == caller_refs(calls, syms, t));
        assert forall|r: int| 0 <= r < n.cross_refs@.len() implies caller_ref(ucm, t, #[trigger] n.cross_refs@[r]) by {
            assert(refs[r] == caller_refs(calls, syms, t)[r]);
            assert(from_caller(calls, syms, t, caller_refs(calls, syms, t)[r]));
            let c = choose|c: int|
                0 <= c < calls.len() && (#[trigger] calls[c]).to@ == t && symbol_index(syms, calls[c].from@) is Some
                && caller_refs(calls, syms, t)[r] == back_ref(syms, calls[c].from@);
            crate::validate::lemma_symbol_index(syms, calls[c].from@);
            let j = symbol_index(syms, calls[c].from@)->0;
            assert(ucm.calls@[c].to@ == t && ucm.symbols@[j].id@ == ucm.calls@[c].from@);
        }
        assert forall|c: int|
            0 <= c < ucm.calls@.len() && (#[trigger] ucm.calls@[c]).to@ == t
            && (exists|j: int| 0 <= j < ucm.symbols@.len() && (#[trigger] ucm.symbols@[j]).id@ == ucm.calls@[c].from@)
            implies exists|r: int| 0 <= r < n.cross_refs@.len() && (#[trigger] n.cross_refs@[r]).id@ == ucm.calls@[c].from@ by {
            crate::validate::lemma_symbol_index(syms, calls[c].from@);
            let r = choose|r: int| 0 <= r < caller_refs(calls, syms, t).len() && caller_refs(calls, syms, t)[r].0 == calls[c].from@;
            assert(refs[r] == caller_refs(calls, syms, t)[r]);
        }
    } else {
        assert(refs.len() == 0);
    }
}

/// Two nodes agree on everything but their cross references and children.
pub open spec fn same_but_refs(a: VizNode, b: VizNode) -> bool {
    &&& a.id == b.id
    &&& a.kind == b.kind
    &&& a.label == b.label
    &&& a.layer == b.layer
    &&& a.source == b.source
    &&& a.element_type == b.element_type
    &&& a.symbol == b.symbol
    &&& a.summary == b.summary
    &&& a.coverage_ids == b.coverage_ids
    &&& a.group_id == b.group_id
    &&& a.tests == b.tests
    &&& a.confidence == b.confidence
    &&& a.branches == b.branches
    &&& a.data_in == b.data_in
    &&& a.data_out == b.data_out
    &&& a.effects == b.effects
}

/// `new` is `old` with each node's cross references appended.
pub open spec fn refs_attached(old: VizNode, new: VizNode, ucm: UnifiedCodeModel) -> bool
    decreases old,
{
    &&& same_but_refs(old, new)
    &&& ref_views(new.cross_refs@) == ref_views(old.cross_refs@) + refs_for(old.kind, old.symbol, ucm)
    &&& new.children@.len() == old.children@.len()
    &&& forall|i: int| 0 <= i < old.children@.len() ==> refs_attached(#[trigger] old.children@[i], new.children@[i], ucm)
}

pub open spec fn refs_attached_forest(old: Seq<VizNode>, new: Seq<VizNode>, ucm: UnifiedCodeModel) -> bool {
    &&& new.len() == old.len()
    &&& forall|i: int| 0 <= i < old.len() ==> refs_attached(#[trigger] old[i], new[i], ucm)
}


fn cross_ref(id: &String, sym: &Symbol, arrow: &str) -> (r: CrossRef)
    ensures
        (r.id@, r.file@, r.label@) == (id@, sym.source.file@, arrow@ + sym.name@ + " in "@ + sym.source.file@),
{
    let mut label = String::from_str(arrow);
    push_str(&mut label, sym.name.as_str());
    push_str(&mut label, " in ");
    push_str(&mut label, sym.source.file.as_str());
    CrossRef { id: id.clone(), file: sym.source.file.clone(), label }
}

fn push_ref(out: &mut Vec<CrossRef>, r: CrossRef)
    ensures
        ref_views(final(out)@) == ref_views(old(out)@).push((r.id@, r.file@, r.label@)),
{
    out.push(r);
    assert(ref_views(out@) =~= ref_views(old(out)@).push((r.id@, r.file@, r.label@)));
}

/// Appends the cross references of a node of kind `kind` naming `symbol`.
fn append_refs(kind: NodeKind, symbol: &Option<String>, ucm: &UnifiedCodeModel, out: &mut Vec<CrossRef>)
    ensures
        ref_views(final(out)@) == ref_views(old(out)@) + refs_for(kind, *symbol, *ucm),
{
    if let Some(sym) = symbol {
        if let Some(i) = crate::validate::symbol_index_of(&ucm.symbols, sym) {
            if kind == NodeKind::Call {
                let r = cross_ref(sym, &ucm.symbols[i], "→ ");
                push_ref(out, r);
                assert(ref_views(out@) =~= ref_views(old(out)@) + refs_for(kind, *symbol, *ucm));
            } else {
                let calls = &ucm.calls;
                let mut k: usize = 0;
                while k < calls.len()
                    invariant
                        0 <= k <= calls@.len(),
                        calls == &ucm.calls,
                        ref_views(out@) == ref_views(old(out)@) + caller_refs(calls@.take(k as int), ucm.symbols@, sym@),
                    decreases calls@.len() - k,
                {
                    assert(calls@.take((k + 1) as int).drop_last() == calls@.take(k as int));
                    let c = &calls[k];
                    if c.to == *sym {
                        if let Some(j) = crate::validate::symbol_index_of(&ucm.symbols, &c.from) {
                            let r = cross_ref(&c.from, &ucm.symbols[j], "← ");
                            push_ref(out, r);
                        }
                    }
                    k = k + 1;
                    assert(ref_views(out@) =~= ref_views(old(out)@) + caller_refs(calls@.take(k as int), ucm.symbols@, sym@));
                }
                assert(calls@.take(calls@.len() as int) == calls@);
            }
        } else {
            assert(ref_views(out@) =~= ref_views(old(out)@) + refs_for(kind, *symbol, *ucm));
        }
    } else {
        assert(ref_views(out@) =~= ref_views(old(out)@) + refs_for(kind, *symbol, *ucm));
    }
}

fn attach_node(node: &mut VizNode, ucm: &UnifiedCodeModel)
    ensures
        refs_attached(*old(node), *final(node), *ucm),
    decreases *old(node),
{
    let ghost orig = *node;
    let mut refs: Vec<CrossRef> = Vec::new();
    std::mem::swap(&mut refs, &mut node.cross_refs);
    append_refs(node.kind, &node.symbol, ucm, &mut refs);
    node.cross_refs = refs;
    let mut pending: Vec<VizNode> = Vec::new();
    std::mem::swap(&mut pending, &mut node.children);
    let ghost kids = orig.children@;
    assert(kids.len() == pending.len());
    let mut done: Vec<VizNode> = Vec::new();
    let mut k: usize = 0;
    while pending.len() > 0
        invariant
            kids == orig.children@,
            orig == *old(node),
            k <= kids.len(),
            kids.len() <= usize::MAX,
            pending@ == kids.skip(k as int),
            done@.len() == k,
            forall|i: int| 0 <= i < k ==> refs_attached(#[trigger] kids[i], done@[i], *ucm),
        decreases pending@.len(),
    {
        assert(k < kids.len());
        let mut c = pending.remove(0);
        assert(c == kids[k as int]);
        assert(decreases_to!(orig => orig.children));
        assert(decreases_to!(orig.children => orig.children@));
        assert(decreases_to!(orig.children@ => orig.children@[k as int]));
        assert(decreases_to!(*old(node) => c));
        attach_node(&mut c, ucm);
        done.push(c);
        k = k + 1;
        assert(pending@ =~= kids.skip(k as int));
    }
    node.children = done;
}

fn attach_forest(ns: &mut Vec<VizNode>, ucm: &UnifiedCodeModel)
    ensures
        refs_attached_forest(old(ns)@, final(ns)@, *ucm),
{
    let ghost kids = ns@;
    let mut pending: Vec<VizNode> = Vec::new();
    std::mem::swap(&mut pending, ns);
    assert(kids.len() == pending.len());
    let mut done: Vec<VizNode> = Vec::new();
    let mut k: usize = 0;
    while pending.len() > 0
        invariant
            k <= kids.len(),
            kids.len() <= usize::MAX,
            pending@ == kids.skip(k as int),
            done@.len() == k,
            forall|i: int| 0 <= i < k ==> refs_attached(#[trigger] kids[i], done@[i], *ucm),
        decreases pending@.len(),
    {
        assert(k < kids.len());
        let mut c = pending.remove(0);
        assert(c == kids[k as int]);
        attach_node(&mut c, ucm);
        done.push(c);
        k = k + 1;
        assert(pending@ =~= kids.skip(k as int));
    }
    *ns = done;
}

/// Adds navigation references to every node that names a symbol: calls point
/// to their callee's file, other nodes list their callers.
pub fn attach_cross_refs(viz: &mut Visualization, model: &UnifiedCodeModel)
    ensures
        final(viz).title == old(viz).title,
        final(viz).level == old(viz).level,
        final(viz).edges == old(viz).edges,
        refs_attached_forest(old(viz).nodes@, final(viz).nodes@, *model),
{
    attach_forest(&mut viz.nodes, model);
}


// ---------------------------------------------------------------------------
// File and function diagrams.

/// `n` is the finished node for entity `e`: its payload, its cross
/// references, and one finished child per child entity in start-line order.
pub open spec fn entity_tree(
    es: Seq<Entity>,
    file: Seq<char>,
    e: EntityView,
    fuel: nat,
    ucm: UnifiedCodeModel,
    n: VizNode,
) -> bool
    decreases fuel,
{
    fuel > 0 && {
        let ks = sorted_kids(es, file, e.id);
        &&& entity_payload(e, n)
        &&& ref_views(n.cross_refs@) == refs_for(n.kind, n.symbol, ucm)
        &&& n.children@.len() == ks.len()
        &&& forall|j: int|
            0 <= j < ks.len() ==> entity_tree(
                es,
                file,
                entity_view(es[#[trigger] ks[j].index as int]),
                (fuel - 1) as nat,
                ucm,
                n.children@[j],
            )
    }
}

/// The label an entity carries is the node's label. Without one, a decision
/// with a condition reads "if <condition>" and an else block without one reads
/// "else"; a loop with a header reads "range <header>" for a range loop and
/// "loop <header>" otherwise. The condition or header is also the node's summary.
pub proof fn law_conditions_in_labels(e: EntityView, n: VizNode)
    requires
        entity_payload(e, n),
    ensures
        e.label.len() > 0 ==> n.label@ == e.label,
        e.label.len() == 0 && e.kind == "if"@ && e.condition.len() > 0 ==> (n.kind == NodeKind::Decision
            && n.label@ == "if "@ + e.condition && (n.summary matches Some(s) && s@ == e.condition)),
        e.label.len() == 0 && e.kind == "else"@ && e.condition.len() == 0 ==> (n.kind == NodeKind::Decision
            && n.label@ == "else"@ && n.summary is None),
        e.label.len() == 0 && e.kind == "loop"@ && e.condition.len() > 0 ==> (n.kind == NodeKind::Loop
            && n.label@ == (if e.name == "range"@ { "range "@ + e.condition } else { "loop "@ + e.condition })
            && (n.summary matches Some(s) && s@ == e.condition)),
{
    reveal_strlit("call");
    reveal_strlit("function");
    reveal_strlit("method");
    reveal_strlit("type");
    reveal_strlit("interface");
    reveal_strlit("file");
    reveal_strlit("if");
    reveal_strlit("else");
    reveal_strlit("loop");
    assert("if"@.len() != "call"@.len() && "if"@.len() != "function"@.len() && "if"@.len() != "method"@.len());
    assert("if"@.len() != "type"@.len() && "if"@.len() != "interface"@.len() && "if"@.len() != "file"@.len());
    assert("else"@[0] != "call"@[0] && "else"@[0] != "type"@[0] && "else"@[0] != "file"@[0]);
    assert("loop"@[0] != "call"@[0] && "loop"@[0] != "type"@[0] && "loop"@[0] != "file"@[0]);
    assert("loop"@[0] != "else"@[0] && "loop"@.len() != "if"@.len());
    assert("else"@.len() != "function"@.len() && "else"@.len() != "method"@.len() && "else"@.len() != "interface"@.len());
    assert("loop"@.len() != "function"@.len() && "loop"@.len() != "method"@.len() && "loop"@.len() != "interface"@.len());
}

proof fn lemma_kid_indices(es: Seq<Entity>, file: Seq<char>, pid: Seq<char>)
    ensures
        forall|k: int| 0 <= k < kid_indices(es, file, pid).len() ==> 0 <= #[trigger] kid_indices(es, file, pid)[k] < es.len()
            && es[kid_indices(es, file, pid)[k]].source.file@ == file
            && es[kid_indices(es, file, pid)[k]].parent_id@ == pid && pid.len() > 0,
    decreases es.len(),
{
    if es.len() > 0 {
        let d = es.drop_last();
        lemma_kid_indices(d, file, pid);
        let pre = kid_indices(d, file, pid);
        let all = kid_indices(es, file, pid);
        assert forall|k: int| 0 <= k < all.len() implies 0 <= #[trigger] all[k] < es.len()
            && es[all[k]].source.file@ == file && es[all[k]].parent_id@ == pid && pid.len() > 0 by {
            if k < pre.len() {
                assert(all[k] == pre[k]);
                assert(es[pre[k]] == d[pre[k]]);
            }
        }
    }
}

/// `x` has the id of an entity of `file` whose parent is `pid`.
pub open spec fn child_entity_node(es: Seq<Entity>, file: Seq<char>, pid: Seq<char>, x: VizNode) -> bool {
    exists|k: int|
        0 <= k < es.len() && (#[trigger] es[k]).id@ == x.id@ && es[k].parent_id@ == pid
        && pid.len() > 0 && es[k].source.file@ == file
}

/// The children of a node built from an entity are the nodes of entities of
/// the same file whose parent is that entity, in order of their start lines.
pub proof fn law_children_in_line_order(
    es: Seq<Entity>,
    file: Seq<char>,
    e: EntityView,
    fuel: nat,
    ucm: UnifiedCodeModel,
    n: VizNode,
)
    requires
        entity_tree(es, file, e, fuel, ucm, n),
        es.len() <= usize::MAX,
    ensures
        forall|j: int| 0 <= j < n.children@.len() ==> child_entity_node(es, file, e.id, #[trigger] n.children@[j]),
        forall|i: int, j: int| #![trigger n.children@[i], n.children@[j]]
            0 <= i < j < n.children@.len() ==> n.children@[i].source is Some && n.children@[j].source is Some
                && n.children@[i].source->0.start_line <= n.children@[j].source->0.start_line,
{
    let idx = kid_indices(es, file, e.id);
    let lines = idx.map_values(|i: int| LineIndex { line: es[i].source.start_line, index: i as usize });
    let ks = sorted_kids(es, file, e.id);
    lemma_kid_indices(es, file, e.id);
    crate::order::lemma_stable_sorted_members(lines);
    assert(crate::order::orders_well(lines));
    crate::order::law_stable_sort_in_order(lines);
    assert forall|j: int| 0 <= j < ks.len() implies 0 <= (#[trigger] ks[j]).index < es.len()
        && ks[j].line == es[ks[j].index as int].source.start_line
        && es[ks[j].index as int].parent_id@ == e.id && e.id.len() > 0
        && es[ks[j].index as int].source.file@ == file by {
        assert(ks == crate::order::stable_sorted(lines));
        assert(lines.contains(ks[j]));
        let m = choose|m: int| 0 <= m < lines.len() && lines[m] == ks[j];
        assert(idx[m] < es.len());
        assert(lines[m] == LineIndex { line: es[idx[m]].source.start_line, index: idx[m] as usize });
    }
    assert forall|j: int| 0 <= j < n.children@.len() implies child_entity_node(es, file, e.id, #[trigger] n.children@[j]) by {
        let k = ks[j].index as int;
        assert(entity_tree(es, file, entity_view(es[k]), (fuel - 1) as nat, ucm, n.children@[j]));
    }
    assert forall|i: int, j: int| #![trigger n.children@[i], n.children@[j]]
        0 <= i < j < n.children@.len() implies n.children@[i].source is Some && n.children@[j].source is Some
            && n.children@[i].source->0.start_line <= n.children@[j].source->0.start_line by {
        assert(entity_tree(es, file, entity_view(es[ks[i].index as int]), (fuel - 1) as nat, ucm, n.children@[i]));
        assert(entity_tree(es, file, entity_view(es[ks[j].index as int]), (fuel - 1) as nat, ucm, n.children@[j]));
        assert(!ks[j].precedes(&ks[i]));
    }
}

/// A node built from a call entity with a callee names that callee as its
/// symbol and sums it up as "→ callee". When the callee is a known symbol, the
/// node holds exactly one reference, forward to it: the callee's id, the file
/// of the last symbol with that id, and "→ name in file"; otherwise none.
pub proof fn law_call_node_names_callee(
    es: Seq<Entity>,
    file: Seq<char>,
    e: EntityView,
    fuel: nat,
    ucm: UnifiedCodeModel,
    n: VizNode,
)
    requires
        entity_tree(es, file, e, fuel, ucm, n),
        e.kind == "call"@,
        e.callee.len() > 0,
    ensures
        n.kind == NodeKind::Call,
        n.symbol matches Some(s) && s@ == e.callee,
        n.summary matches Some(s) && s@ == "→ "@ + e.callee,
        forall|j: int|
            0 <= j < ucm.symbols@.len() && (#[trigger] ucm.symbols@[j]).id@ == e.callee
            && (forall|k: int| j < k < ucm.symbols@.len() ==> (#[trigger] ucm.symbols@[k]).id@ != e.callee)
            ==> ref_views(n.cross_refs@) == seq![(
                e.callee,
                ucm.symbols@[j].source.file@,
                "→ "@ + ucm.symbols@[j].name@ + " in "@ + ucm.symbols@[j].source.file@,
            )],
        (forall|j: int| 0 <= j < ucm.symbols@.len() ==> (#[trigger] ucm.symbols@[j]).id@ != e.callee)
            ==> n.cross_refs@.len() == 0,
{
    crate::validate::lemma_symbol_index(ucm.symbols@, e.callee);
    reveal_strlit("call");
    reveal_strlit("function");
    reveal_strlit("method");
    reveal_strlit("type");
    reveal_strlit("interface");
    reveal_strlit("file");
    assert("call"@.len() != "function"@.len() && "call"@.len() != "method"@.len());
    assert("call"@.len() != "interface"@.len());
    assert("call"@[0] != "type"@[0] && "call"@[0] != "file"@[0]);
    assert(entity_payload(e, n));
    assert(kind_for(e.kind) == NodeKind::Call);
    if symbol_index(ucm.symbols@, e.callee) is None {
        assert(ref_views(n.cross_refs@).len() == 0);
    }
}

proof fn lemma_built_then_attached(
    es: Seq<Entity>,
    file: Seq<char>,
    e: EntityView,
    fuel: nat,
    ucm: UnifiedCodeModel,
    b: VizNode,
    n: VizNode,
)
    requires
        built_node(es, file, e, fuel, b),
        refs_attached(b, n, ucm),
    ensures
        entity_tree(es, file, e, fuel, ucm, n),
    decreases fuel,
{
    let ks = sorted_kids(es, file, e.id);
    assert(ref_views(b.cross_refs@) =~= Seq::<(Seq<char>, Seq<char>, Seq<char>)>::empty());
    assert(ref_views(n.cross_refs@) =~= refs_for(n.kind, n.symbol, ucm));
    assert forall|j: int| 0 <= j < ks.len() implies entity_tree(
        es,
        file,
        entity_view(es[#[trigger] ks[j].index as int]),
        (fuel - 1) as nat,
        ucm,
        n.children@[j],
    ) by {
        lemma_built_then_attached(
            es,
            file,
            entity_view(es[ks[j].index as int]),
            (fuel - 1) as nat,
            ucm,
            b.children@[j],
            n.children@[j],
        );
    }
}

/// The file's own entity: a top-level entity of the file of kind "file".
pub open spec fn is_file_entity(e: Entity, file: Seq<char>) -> bool {
    e.source.file@ == file && e.parent_id@.len() == 0 && e.kind@ == "file"@
}

/// The index of the first entity that is the file's own.
pub open spec fn file_entity_index(es: Seq<Entity>, file: Seq<char>) -> Option<int> {
    first_match(es, |e: Entity| is_file_entity(e, file))
}

/// The entity a file diagram starts from: the file's own entity, or one made
/// up for the file, covering its first line.
pub open spec fn file_root_view(es: Seq<Entity>, file: Seq<char>) -> EntityView {
    match file_entity_index(es, file) {
        Some(i) => entity_view(es[i]),
        None => EntityView {
            id: "file:"@ + file,
            kind: "file"@,
            name: file,
            label: Seq::empty(),
            symbol: Seq::empty(),
            callee: Seq::empty(),
            condition: Seq::empty(),
            file: file,
            start_line: 1,
            end_line: 1,
        },
    }
}

fn file_entity_of(es: &Vec<Entity>, file: &String) -> (r: Option<usize>)
    ensures
        match r {
            Some(i) => i < es@.len() && file_entity_index(es@, file@) == Some(i as int),
            None => file_entity_index(es@, file@) is None,
        },
{
    let ghost p = |e: Entity| is_file_entity(e, file@);
    let mut i: usize = 0;
    while i < es.len()
        invariant
            0 <= i <= es@.len(),
            p == (|e: Entity| is_file_entity(e, file@)),
            first_match(es@.take(i as int), p) is None,
        decreases es@.len() - i,
    {
        let e = &es[i];
        if e.source.file == *file && e.parent_id.unicode_len() == 0 && same_text(e.kind.as_str(), "file") {
            proof {
                lemma_first_match_prefix(es@, p, i as int);
            }
            return Some(i);
        }
        proof {
            lemma_first_match_step(es@, p, i as int);
        }
        i = i + 1;
    }
    assert(es@.take(es@.len() as int) == es@);
    None
}

fn entity_with(id: String, kind: &str, name: String, symbol: String, source: SourceRange) -> (e: Entity)
    ensures
        e.id == id,
        e.kind@ == kind@,
        e.name == name,
        e.label@.len() == 0,
        e.symbol == symbol,
        e.callee@.len() == 0,
        e.condition@.len() == 0,
        e.source == source,
        e.parent_id@.len() == 0,
{
    Entity {
        id,
        kind: String::from_str(kind),
        name,
        label: String::new(),
        symbol,
        callee: String::new(),
        condition: String::new(),
        source,
        parent_id: String::new(),
        children: Vec::new(),
        coverage: false,
    }
}

/// A file diagram's tree can be built: no entity under the file's root is its own ancestor.
pub open spec fn file_tree_finite(model: UnifiedCodeModel, file: Seq<char>) -> bool {
    exists|fuel: nat| builds_within(model.entities@, file, file_root_view(model.entities@, file), fuel)
}

/// Builds the scope tree of one file from the analyzer's entities.
pub fn from_entities(file: &str, _source: &str, model: &UnifiedCodeModel) -> (viz: Visualization)
    requires
        file_tree_finite(*model, file@),
    ensures
        viz.title@ == file@,
        viz.level == Level::File,
        viz.edges@.len() == 0,
        viz.nodes@.len() == 1,
        ({
            let root = file_root_view(model.entities@, file@);
            let fuel = choose|fuel: nat| builds_within(model.entities@, file@, root, fuel);
            entity_tree(model.entities@, file@, root, fuel, *model, viz.nodes@[0])
        }),
{
    let file_s = file.to_owned();
    let es = &model.entities;
    let ghost root = file_root_view(es@, file@);
    let ghost fuel = choose|fuel: nat| builds_within(es@, file@, root, fuel);
    let built = match file_entity_of(es, &file_s) {
        Some(i) => build_node(es, &file_s, &es[i], Ghost(fuel)),
        None => {
            let mut id = String::from_str("file:");
            push_str(&mut id, file);
            let source = SourceRange { file: file.to_owned(), start_line: 1, end_line: 1 };
            let synthetic = entity_with(id, "file", file.to_owned(), String::new(), source);
            assert(synthetic.label@ =~= Seq::<char>::empty());
            assert(synthetic.callee@ =~= Seq::<char>::empty());
            assert(synthetic.condition@ =~= Seq::<char>::empty());
            assert(entity_view(synthetic) == root);
            build_node(es, &file_s, &synthetic, Ghost(fuel))
        },
    };
    let mut nodes: Vec<VizNode> = Vec::new();
    nodes.push(built);
    let mut viz = Visualization { title: file.to_owned(), level: Level::File, nodes, edges: Vec::new() };
    let ghost before = viz.nodes@;
    attach_cross_refs(&mut viz, model);
    proof {
        lemma_built_then_attached(es@, file@, root, fuel, *model, before[0], viz.nodes@[0]);
    }
    viz
}


/// An entity that is the body of the function or method `symbol`.
pub open spec fn is_function_entity(e: Entity, symbol: Seq<char>) -> bool {
    e.symbol@ == symbol && (e.kind@ == "function"@ || e.kind@ == "method"@)
}

/// The test for an entity that is the function or method `symbol`.
pub open spec fn function_entity_test(symbol: Seq<char>) -> spec_fn(Entity) -> bool {
    |e: Entity| is_function_entity(e, symbol)
}

/// The test for a symbol with id `id`.
pub open spec fn symbol_id_test(id: Seq<char>) -> spec_fn(Symbol) -> bool {
    |s: Symbol| s.id@ == id
}

/// The entity a function diagram starts from: the first function or method
/// entity of the symbol, else one made up from the first symbol with that id.
pub open spec fn function_root_view(model: UnifiedCodeModel, symbol: Seq<char>) -> Option<EntityView> {
    match first_match(model.entities@, function_entity_test(symbol)) {
        Some(i) => Some(entity_view(model.entities@[i])),
        None => match first_match(model.symbols@, symbol_id_test(symbol)) {
            Some(j) => {
                let s = model.symbols@[j];
                Some(EntityView {
                    id: "func:"@ + s.id@,
                    kind: "function"@,
                    name: s.name@,
                    label: Seq::empty(),
                    symbol: s.id@,
                    callee: Seq::empty(),
                    condition: Seq::empty(),
                    file: s.source.file@,
                    start_line: s.source.start_line,
                    end_line: s.source.end_line,
                })
            },
            None => None,
        },
    }
}

/// The function diagram of `symbol` starts from the model's first entity that
/// is the function or method `symbol` (an entity with that symbol whose kind
/// is "function" or "method") whenever there is one. Only when there is none
/// is a root made up from the symbol, with the id "func:" followed by it.
pub proof fn law_function_root_is_its_entity(model: UnifiedCodeModel, symbol: Seq<char>)
    ensures
        (exists|i: int| 0 <= i < model.entities@.len() && (#[trigger] model.entities@[i]).symbol@ == symbol
            && (model.entities@[i].kind@ == "function"@ || model.entities@[i].kind@ == "method"@))
        ==> exists|i: int|
            0 <= i < model.entities@.len() && (#[trigger] model.entities@[i]).symbol@ == symbol
            && (model.entities@[i].kind@ == "function"@ || model.entities@[i].kind@ == "method"@)
            && (forall|k: int| 0 <= k < i ==> !((#[trigger] model.entities@[k]).symbol@ == symbol
                && (model.entities@[k].kind@ == "function"@ || model.entities@[k].kind@ == "method"@)))
            && function_root_view(model, symbol) == Some(entity_view(model.entities@[i])),
        (forall|i: int| 0 <= i < model.entities@.len() ==> !((#[trigger] model.entities@[i]).symbol@ == symbol
            && (model.entities@[i].kind@ == "function"@ || model.entities@[i].kind@ == "method"@)))
        ==> ((function_root_view(model, symbol) is Some <==> exists|j: int| 0 <= j < model.symbols@.len() && (#[trigger] model.symbols@[j]).id@ == symbol))
            && (function_root_view(model, symbol) matches Some(r) ==> r.id == "func:"@ + symbol && r.symbol == symbol),
{
    crate::order::lemma_first_match_spec(model.entities@, function_entity_test(symbol));
    crate::order::lemma_first_match_spec(model.symbols@, symbol_id_test(symbol));
}

/// A function diagram's tree can be built: no entity under its root is its own ancestor.
pub open spec fn function_tree_finite(model: UnifiedCodeModel, symbol: Seq<char>) -> bool {
    match function_root_view(model, symbol) {
        Some(root) => exists|fuel: nat| builds_within(model.entities@, root.file, root, fuel),
        None => true,
    }
}

pub open spec fn msg_function_not_found(symbol: Seq<char>) -> Seq<char> {
    "function entity for symbol '"@ + symbol + "' not found"@
}

fn find_function_entity(es: &Vec<Entity>, symbol: &String) -> (r: Option<usize>)
    ensures
        match r {
            Some(i) => i < es@.len() && first_match(es@, function_entity_test(symbol@)) == Some(i as int),
            None => first_match(es@, function_entity_test(symbol@)) is None,
        },
{
    let ghost p = function_entity_test(symbol@);
    let mut i: usize = 0;
    while i < es.len()
        invariant
            0 <= i <= es@.len(),
            p == function_entity_test(symbol@),
            first_match(es@.take(i as int), p) is None,
        decreases es@.len() - i,
    {
        let e = &es[i];
        if e.symbol == *symbol && (same_text(e.kind.as_str(), "function") || same_text(e.kind.as_str(), "method")) {
            proof {
                lemma_first_match_prefix(es@, p, i as int);
            }
            return Some(i);
        }
        proof {
            lemma_first_match_step(es@, p, i as int);
        }
        i = i + 1;
    }
    assert(es@.take(es@.len() as int) == es@);
    None
}

fn find_symbol(syms: &Vec<Symbol>, id: &String) -> (r: Option<usize>)
    ensures
        match r {
            Some(i) => i < syms@.len() && first_match(syms@, symbol_id_test(id@)) == Some(i as int),
            None => first_match(syms@, symbol_id_test(id@)) is None,
        },
{
    let ghost p = symbol_id_test(id@);
    let mut i: usize = 0;
    while i < syms.len()
        invariant
            0 <= i <= syms@.len(),
            p == symbol_id_test(id@),
            first_match(syms@.take(i as int), p) is None,
        decreases syms@.len() - i,
    {
        if syms[i].id == *id {
            proof {
                lemma_first_match_prefix(syms@, p, i as int);
            }
            return Some(i);
        }
        proof {
            lemma_first_match_step(syms@, p, i as int);
        }
        i = i + 1;
    }
    assert(syms@.take(syms@.len() as int) == syms@);
    None
}

/// Builds the scope tree of one function or method, with its calls,
/// branches and loops, from the analyzer's entities.
pub fn from_function(symbol_id: &str, _source: &str, model: &UnifiedCodeModel) -> (r: Result<Visualization, String>)
    requires
        function_tree_finite(*model, symbol_id@),
    ensures
        match function_root_view(*model, symbol_id@) {
            None => r matches Err(m) && m@ == msg_function_not_found(symbol_id@),
            Some(root) => r matches Ok(viz) && {
                let fuel = choose|fuel: nat| builds_within(model.entities@, root.file, root, fuel);
                &&& viz.title@ == root.file + " — "@ + root.name
                &&& viz.level == Level::Function
                &&& viz.edges@.len() == 0
                &&& viz.nodes@.len() == 1
                &&& entity_tree(model.entities@, root.file, root, fuel, *model, viz.nodes@[0])
            },
        },
{
    let id = symbol_id.to_owned();
    let es = &model.entities;
    let entity: Entity = match find_function_entity(es, &id) {
        Some(i) => {
            let e = &es[i];
            let mut copy = entity_with(e.id.clone(), "function", e.name.clone(), e.symbol.clone(), e.source.clone());
            copy.kind = e.kind.clone();
            copy.label = e.label.clone();
            copy.callee = e.callee.clone();
            copy.condition = e.condition.clone();
            copy
        },
        None => match find_symbol(&model.symbols, &id) {
            Some(j) => {
                let s = &model.symbols[j];
                let mut eid = String::from_str("func:");
                push_str(&mut eid, s.id.as_str());
                let synthetic = entity_with(eid, "function", s.name.clone(), s.id.clone(), s.source.clone());
                assert(synthetic.label@ =~= Seq::<char>::empty());
                assert(synthetic.callee@ =~= Seq::<char>::empty());
                assert(synthetic.condition@ =~= Seq::<char>::empty());
                synthetic
            },
            None => {
                let mut m = String::from_str("function entity for symbol '");
                push_str(&mut m, symbol_id);
                push_str(&mut m, "' not found");
                return Err(m);
            },
        },
    };
    let ghost root = function_root_view(*model, symbol_id@)->0;
    assert(entity_view(entity) == root);
    let ghost fuel = choose|fuel: nat| builds_within(es@, root.file, root, fuel);
    let file = entity.source.file.clone();
    let built = build_node(es, &file, &entity, Ghost(fuel));
    let mut title = entity.source.file.clone();
    push_str(&mut title, " — ");
    push_str(&mut title, entity.name.as_str());
    let mut nodes: Vec<VizNode> = Vec::new();
    nodes.push(built);
    let mut viz = Visualization { title, level: Level::Function, nodes, edges: Vec::new() };
    let ghost before = viz.nodes@;
    attach_cross_refs(&mut viz, model);
    proof {
        lemma_built_then_attached(es@, root.file, root, fuel, *model, before[0], viz.nodes@[0]);
    }
    Ok(viz)
}


// ---------------------------------------------------------------------------
// Whether a diagram's tree can be built.

fn builds_check(es: &Vec<Entity>, file: &String, id: &String, fuel: usize, Ghost(e): Ghost<EntityView>) -> (b: bool)
    requires
        e.id == id@,
    ensures
        b == builds_within(es@, file@, e, fuel as nat),
    decreases fuel,
{
    if fuel == 0 {
        return false;
    }
    let ks = kids_of(es, file, id);
    let mut j: usize = 0;
    while j < ks.len()
        invariant
            0 <= j <= ks@.len(),
            fuel > 0,
            ks@ == sorted_kids(es@, file@, e.id),
            forall|k: int| 0 <= k < ks@.len() ==> (#[trigger] ks@[k]).index < es@.len(),
            forall|k: int| 0 <= k < j ==> builds_within(es@, file@, entity_view(es@[#[trigger] ks@[k].index as int]), (fuel - 1) as nat),
        decreases ks@.len() - j,
    {
        let idx = ks[j].index;
        assert(ks@[j as int].index == idx);
        if !builds_check(es, file, &es[idx].id, fuel - 1, Ghost(entity_view(es@[idx as int]))) {
            return false;
        }
        j = j + 1;
    }
    true
}

/// How deep a tree of `n` entities can go: one level more than there are entities.
pub open spec fn depth_budget(n: nat) -> nat {
    if n < usize::MAX { n + 1 } else { n }
}

/// Whether the file diagram of `file` can be built within the depth budget;
/// when it cannot, some entity under the file's root is its own ancestor or
/// the tree is deeper than there are entities.
pub fn file_tree_buildable(model: &UnifiedCodeModel, file: &str) -> (r: bool)
    ensures
        r == builds_within(model.entities@, file@, file_root_view(model.entities@, file@), depth_budget(model.entities@.len())),
        r ==> file_tree_finite(*model, file@),
{
    let es = &model.entities;
    let n = es.len();
    let fuel: usize = if n < usize::MAX { n + 1 } else { n };
    let file_s = file.to_owned();
    let ghost root = file_root_view(es@, file@);
    let r = match file_entity_of(es, &file_s) {
        Some(i) => builds_check(es, &file_s, &es[i].id, fuel, Ghost(root)),
        None => {
            let mut id = String::from_str("file:");
            push_str(&mut id, file);
            builds_check(es, &file_s, &id, fuel, Ghost(root))
        },
    };
    r
}

/// Whether the function diagram of `symbol_id` can be built within the depth
/// budget (there is nothing to build when the symbol has no root).
pub fn function_tree_buildable(model: &UnifiedCodeModel, symbol_id: &str) -> (r: bool)
    ensures
        r == match function_root_view(*model, symbol_id@) {
            Some(root) => builds_within(model.entities@, root.file, root, depth_budget(model.entities@.len())),
            None => true,
        },
        r ==> function_tree_finite(*model, symbol_id@),
{
    let id = symbol_id.to_owned();
    let es = &model.entities;
    let n = es.len();
    let fuel: usize = if n < usize::MAX { n + 1 } else { n };
    let r = match find_function_entity(es, &id) {
        Some(i) => {
            let ghost root = function_root_view(*model, symbol_id@)->0;
            builds_check(es, &es[i].source.file, &es[i].id, fuel, Ghost(root))
        },
        None => match find_symbol(&model.symbols, &id) {
            Some(j) => {
                let s = &model.symbols[j];
                let ghost root = function_root_view(*model, symbol_id@)->0;
                let mut eid = String::from_str("func:");
                push_str(&mut eid, s.id.as_str());
                builds_check(es, &s.source.file, &eid, fuel, Ghost(root))
            },
            None => true,
        },
    };
    proof {
        if r {
            if let Some(root) = function_root_view(*model, symbol_id@) {
                assert(builds_within(es@, root.file, root, depth_budget(es@.len())));
            }
        }
    }
    r
}

// ---------------------------------------------------------------------------
// The project map.

/// An index into a list, ordered by a text key.
pub struct TextIndex {
    pub key: String,
    pub index: usize,
}

impl SortKey for TextIndex {
    open spec fn precedes(&self, other: &Self) -> bool {
        crate::order::text_lt(self.key@, other.key@)
    }

    fn sorts_before(&self, other: &Self) -> (r: bool) {
        crate::order::text_less(&self.key, &other.key)
    }
}

/// The part of a path after its last `/` (the whole path when it has none).
pub open spec fn base_name(path: Seq<char>) -> Seq<char> {
    match last_slash(path) {
        Some(i) => path.skip(i + 1),
        None => path,
    }
}

pub open spec fn last_slash(path: Seq<char>) -> Option<int>
    decreases path.len(),
{
    if path.len() == 0 {
        None
    } else if path.last() == '/' {
        Some(path.len() - 1)
    } else {
        last_slash(path.drop_last())
    }
}

/// `s` ends with `suffix`.
pub open spec fn ends_with(s: Seq<char>, suffix: Seq<char>) -> bool {
    suffix.len() <= s.len() && s.skip(s.len() - suffix.len()) == suffix
}

/// A symbol of `file` that the project map shows: exported, or in a main package.
pub open spec fn shown_symbol(s: Symbol, file: Seq<char>) -> bool {
    s.source.file@ == file && (s.is_exported || s.package@ == "main"@ || ends_with(s.package@, "/main"@))
}

/// The indices of the symbols the project map shows for `file`, in model order.
pub open spec fn shown_indices(syms: Seq<Symbol>, file: Seq<char>) -> Seq<int>
    decreases syms.len(),
{
    if syms.len() == 0 {
        seq![]
    } else {
        shown_indices(syms.drop_last(), file) + if shown_symbol(syms.last(), file) {
            seq![syms.len() - 1]
        } else {
            Seq::<int>::empty()
        }
    }
}

/// The indices of the files of a package that have symbols to show.
pub open spec fn kept_files(files: Seq<String>, syms: Seq<Symbol>) -> Seq<int>
    decreases files.len(),
{
    if files.len() == 0 {
        seq![]
    } else {
        kept_files(files.drop_last(), syms) + if shown_indices(syms, files.last()@).len() > 0 {
            seq![files.len() - 1]
        } else {
            Seq::<int>::empty()
        }
    }
}

/// A package's files on the map, stably ordered by path.
pub open spec fn sorted_files(files: Seq<String>, syms: Seq<Symbol>) -> Seq<TextIndex> {
    stable_sorted(kept_files(files, syms).map_values(|i: int| TextIndex { key: files[i], index: i as usize }))
}

/// The indices of the packages that have files on the map.
pub open spec fn kept_packages(model: UnifiedCodeModel) -> Seq<int> {
    kept_packages_of(model.packages@, model.symbols@)
}

pub open spec fn kept_packages_of(ps: Seq<crate::ucm::Package>, syms: Seq<Symbol>) -> Seq<int>
    decreases ps.len(),
{
    if ps.len() == 0 {
        seq![]
    } else {
        kept_packages_of(ps.drop_last(), syms) + if kept_files(ps.last().files@, syms).len() > 0 {
            seq![ps.len() - 1]
        } else {
            Seq::<int>::empty()
        }
    }
}

/// The packages on the map, stably ordered by id.
pub open spec fn sorted_packages(model: UnifiedCodeModel) -> Seq<TextIndex> {
    stable_sorted(kept_packages(model).map_values(|i: int| TextIndex { key: model.packages@[i].id, index: i as usize }))
}

/// Fields that every node of the project map leaves empty.
pub open spec fn bare(n: VizNode) -> bool {
    &&& n.element_type is None
    &&& n.summary is None
    &&& n.coverage_ids@.len() == 0
    &&& n.group_id is None
    &&& n.tests is None
    &&& n.confidence is None
    &&& n.branches@.len() == 0
    &&& n.data_in@.len() == 0
    &&& n.data_out@.len() == 0
    &&& n.effects@.len() == 0
}

/// The cross references a node has: none yet, or those `attach_cross_refs` adds.
pub open spec fn refs_ok(n: VizNode, refs: bool, ucm: UnifiedCodeModel) -> bool {
    ref_views(n.cross_refs@) == if refs { refs_for(n.kind, n.symbol, ucm) } else { seq![] }
}

/// `n` is the map node of symbol `s`.
pub open spec fn symbol_node(s: Symbol, n: VizNode, refs: bool, ucm: UnifiedCodeModel) -> bool {
    &&& bare(n)
    &&& n.id@ == s.id@
    &&& n.kind == (if s.kind == SymbolKind::Variable { NodeKind::Action } else { NodeKind::Group })
    &&& n.label@ == s.name@
    &&& n.layer == Layer::Flow
    &&& n.source matches Some(src) && src.file@ == s.source.file@ && src.start_line == s.source.start_line
        && src.end_line == s.source.end_line
    &&& n.symbol matches Some(sym) && sym@ == s.id@
    &&& n.children@.len() == 0
    &&& refs_ok(n, refs, ucm)
}

/// `n` is the map node of `file`, with one child per shown symbol.
pub open spec fn file_node(file: Seq<char>, n: VizNode, refs: bool, ucm: UnifiedCodeModel) -> bool {
    let shown = shown_indices(ucm.symbols@, file);
    &&& bare(n)
    &&& n.id@ == "file:"@ + file
    &&& n.kind == NodeKind::Group
    &&& n.label@ == base_name(file)
    &&& n.layer == Layer::Flow
    &&& n.source matches Some(src) && src.file@ == file && src.start_line == 1 && src.end_line == 1
    &&& n.symbol is None
    &&& refs_ok(n, refs, ucm)
    &&& n.children@.len() == shown.len()
    &&& forall|k: int| 0 <= k < shown.len() ==> symbol_node(ucm.symbols@[#[trigger] shown[k]], n.children@[k], refs, ucm)
}

/// `n` is the map node of package `p`, with its files ordered by path.
pub open spec fn package_node(p: crate::ucm::Package, n: VizNode, refs: bool, ucm: UnifiedCodeModel) -> bool {
    let files = sorted_files(p.files@, ucm.symbols@);
    &&& bare(n)
    &&& n.id == p.id
    &&& n.kind == NodeKind::Group
    &&& n.label == p.name
    &&& n.layer == Layer::Flow
    &&& n.source is None
    &&& n.symbol is None
    &&& refs_ok(n, refs, ucm)
    &&& n.children@.len() == files.len()
    &&& forall|k: int| 0 <= k < files.len() ==> file_node(p.files@[#[trigger] files[k].index as int]@, n.children@[k], refs, ucm)
}

/// `ns` are the project map's package nodes, ordered by id.
pub open spec fn project_nodes(ucm: UnifiedCodeModel, ns: Seq<VizNode>, refs: bool) -> bool {
    let ps = sorted_packages(ucm);
    &&& ns.len() == ps.len()
    &&& forall|k: int| 0 <= k < ps.len() ==> package_node(ucm.packages@[#[trigger] ps[k].index as int], ns[k], refs, ucm)
}


proof fn lemma_shown_indices(syms: Seq<Symbol>, file: Seq<char>)
    ensures
        forall|k: int| 0 <= k < shown_indices(syms, file).len() ==> 0 <= #[trigger] shown_indices(syms, file)[k] < syms.len()
            && shown_symbol(syms[shown_indices(syms, file)[k]], file),
        forall|i: int| 0 <= i < syms.len() && shown_symbol(#[trigger] syms[i], file)
            ==> exists|k: int| 0 <= k < shown_indices(syms, file).len() && shown_indices(syms, file)[k] == i,
    decreases syms.len(),
{
    if syms.len() > 0 {
        let d = syms.drop_last();
        lemma_shown_indices(d, file);
        let pre = shown_indices(d, file);
        let all = shown_indices(syms, file);
        assert forall|i: int| 0 <= i < d.len() implies #[trigger] syms[i] == d[i] by {}
        assert forall|k: int| 0 <= k < all.len() implies 0 <= #[trigger] all[k] < syms.len() && shown_symbol(syms[all[k]], file) by {
            if k < pre.len() {
                assert(all[k] == pre[k]);
                assert(syms[pre[k]] == d[pre[k]]);
            }
        }
        assert forall|i: int| 0 <= i < syms.len() && shown_symbol(#[trigger] syms[i], file)
            implies exists|k: int| 0 <= k < all.len() && all[k] == i by {
            if i < d.len() {
                assert(shown_symbol(d[i], file));
                let k = choose|k: int| 0 <= k < pre.len() && pre[k] == i;
                assert(all[k] == pre[k]);
            } else {
                assert(all[pre.len() as int] == i);
            }
        }
    }
}

/// A package path names a main package when it ends in "/main".
proof fn lemma_main_suffix(p: Seq<char>)
    ensures
        ends_with(p, "/main"@) <==> (p.len() >= 5 && p.subrange(p.len() - 5, p.len() as int) == "/main"@),
{
    reveal_strlit("/main");
    if p.len() >= 5 {
        assert(p.skip(p.len() - 5) =~= p.subrange(p.len() - 5, p.len() as int));
    }
}

/// Some symbol of `file` with the node's id is exported, or belongs to the
/// package "main" or to a package whose path ends in "/main".
pub open spec fn lists_public_symbol(ucm: UnifiedCodeModel, file: Seq<char>, x: VizNode) -> bool {
    exists|i: int|
        0 <= i < ucm.symbols@.len() && (#[trigger] ucm.symbols@[i]).id@ == x.id@
        && ucm.symbols@[i].source.file@ == file
        && (ucm.symbols@[i].is_exported || ucm.symbols@[i].package@ == "main"@
            || (ucm.symbols@[i].package@.len() >= 5
                && ucm.symbols@[i].package@.subrange(ucm.symbols@[i].package@.len() - 5, ucm.symbols@[i].package@.len() as int)
                    == "/main"@))
}

/// The node of a file on the project map lists only symbols of that file that
/// are exported or belong to a main package (the package "main", or one whose
/// path ends in "/main"), and it lists every such symbol.
pub proof fn law_file_node_lists_public_symbols(file: Seq<char>, n: VizNode, refs: bool, ucm: UnifiedCodeModel)
    requires
        file_node(file, n, refs, ucm),
    ensures
        forall|k: int| 0 <= k < n.children@.len() ==> lists_public_symbol(ucm, file, #[trigger] n.children@[k]),
        forall|i: int|
            0 <= i < ucm.symbols@.len() && (#[trigger] ucm.symbols@[i]).source.file@ == file
            && (ucm.symbols@[i].is_exported || ucm.symbols@[i].package@ == "main"@
                || (ucm.symbols@[i].package@.len() >= 5
                    && ucm.symbols@[i].package@.subrange(ucm.symbols@[i].package@.len() - 5, ucm.symbols@[i].package@.len() as int)
                        == "/main"@))
            ==> exists|k: int| 0 <= k < n.children@.len() && (#[trigger] n.children@[k]).id@ == ucm.symbols@[i].id@,
{
    let syms = ucm.symbols@;
    let shown = shown_indices(syms, file);
    lemma_shown_indices(syms, file);
    assert forall|k: int| 0 <= k < n.children@.len() implies lists_public_symbol(ucm, file, #[trigger] n.children@[k]) by {
        let i = shown[k];
        assert(symbol_node(syms[i], n.children@[k], refs, ucm));
        lemma_main_suffix(syms[i].package@);
        assert(syms[i].id@ == n.children@[k].id@);
    }
    assert forall|i: int|
        0 <= i < ucm.symbols@.len() && (#[trigger] ucm.symbols@[i]).source.file@ == file
        && (ucm.symbols@[i].is_exported || ucm.symbols@[i].package@ == "main"@
            || (ucm.symbols@[i].package@.len() >= 5
                && ucm.symbols@[i].package@.subrange(ucm.symbols@[i].package@.len() - 5, ucm.symbols@[i].package@.len() as int)
                    == "/main"@))
        implies exists|k: int| 0 <= k < n.children@.len() && (#[trigger] n.children@[k]).id@ == ucm.symbols@[i].id@ by {
        lemma_main_suffix(syms[i].package@);
        assert(shown_symbol(syms[i], file));
        let k = choose|k: int| 0 <= k < shown.len() && shown[k] == i;
        assert(symbol_node(syms[shown[k]], n.children@[k], refs, ucm));
    }
}

/// On the project map, the symbols listed under a file node (the `b`-th file
/// of the `a`-th package) are symbols of that file that are exported or belong
/// to a main package; unexported symbols of other packages are not shown.
pub proof fn law_project_map_lists_public_symbols(ucm: UnifiedCodeModel, ns: Seq<VizNode>, refs: bool, a: int, b: int)
    requires
        project_nodes(ucm, ns, refs),
        0 <= a < ns.len(),
        0 <= b < ns[a].children@.len(),
    ensures
        ns[a].children@[b].source is Some,
        forall|c: int| 0 <= c < ns[a].children@[b].children@.len() ==> lists_public_symbol(
            ucm,
            ns[a].children@[b].source->0.file@,
            #[trigger] ns[a].children@[b].children@[c],
        ),
{
    let ps = sorted_packages(ucm);
    let p = ucm.packages@[ps[a].index as int];
    assert(package_node(p, ns[a], refs, ucm));
    let files = sorted_files(p.files@, ucm.symbols@);
    let f = p.files@[files[b].index as int]@;
    assert(file_node(f, ns[a].children@[b], refs, ucm));
    law_file_node_lists_public_symbols(f, ns[a].children@[b], refs, ucm);
}

proof fn lemma_kept_files(files: Seq<String>, syms: Seq<Symbol>)
    ensures
        forall|k: int| 0 <= k < kept_files(files, syms).len() ==> 0 <= #[trigger] kept_files(files, syms)[k] < files.len(),
    decreases files.len(),
{
    if files.len() > 0 {
        lemma_kept_files(files.drop_last(), syms);
        let pre = kept_files(files.drop_last(), syms);
        assert forall|k: int| 0 <= k < kept_files(files, syms).len() implies 0 <= #[trigger] kept_files(files, syms)[k] < files.len() by {
            if k < pre.len() {
                assert(kept_files(files, syms)[k] == pre[k]);
            }
        }
    }
}

proof fn lemma_kept_packages(ps: Seq<crate::ucm::Package>, syms: Seq<Symbol>)
    ensures
        forall|k: int| 0 <= k < kept_packages_of(ps, syms).len() ==> 0 <= #[trigger] kept_packages_of(ps, syms)[k] < ps.len(),
    decreases ps.len(),
{
    if ps.len() > 0 {
        lemma_kept_packages(ps.drop_last(), syms);
        let pre = kept_packages_of(ps.drop_last(), syms);
        assert forall|k: int| 0 <= k < kept_packages_of(ps, syms).len() implies 0 <= #[trigger] kept_packages_of(ps, syms)[k] < ps.len() by {
            if k < pre.len() {
                assert(kept_packages_of(ps, syms)[k] == pre[k]);
            }
        }
    }
}

/// The project map lists its packages in order of their ids, and the files
/// of each package in order of their paths.
pub proof fn law_project_map_in_order(ucm: UnifiedCodeModel, ns: Seq<VizNode>, refs: bool)
    requires
        project_nodes(ucm, ns, refs),
        ucm.packages@.len() <= usize::MAX,
        forall|k: int| 0 <= k < ucm.packages@.len() ==> (#[trigger] ucm.packages@[k]).files@.len() <= usize::MAX,
    ensures
        forall|i: int, j: int| 0 <= i < j < ns.len() ==> !crate::order::text_lt(#[trigger] ns[j].id@, #[trigger] ns[i].id@),
        forall|a: int, i: int, j: int| #![trigger ns[a].children@[i], ns[a].children@[j]]
            0 <= a < ns.len() && 0 <= i < j < ns[a].children@.len() ==> ns[a].children@[i].source is Some
                && ns[a].children@[j].source is Some
                && !crate::order::text_lt(ns[a].children@[j].source->0.file@, ns[a].children@[i].source->0.file@),
{
    let pk = kept_packages(ucm).map_values(|i: int| TextIndex { key: ucm.packages@[i].id, index: i as usize });
    let ps = sorted_packages(ucm);
    assert(ps == stable_sorted(pk));
    lemma_kept_packages(ucm.packages@, ucm.symbols@);
    crate::order::lemma_stable_sorted_members(pk);
    crate::order::lemma_text_key_orders_well(pk, |t: TextIndex| t.key@);
    crate::order::law_stable_sort_in_order(pk);
    assert forall|k: int| 0 <= k < ps.len() implies #[trigger] ps[k].key@ == ns[k].id@ by {
        assert(pk.contains(ps[k]));
        let m = choose|m: int| 0 <= m < pk.len() && pk[m] == ps[k];
        assert(package_node(ucm.packages@[ps[k].index as int], ns[k], refs, ucm));
    }
    assert forall|i: int, j: int| 0 <= i < j < ns.len() implies !crate::order::text_lt(#[trigger] ns[j].id@, #[trigger] ns[i].id@) by {
        assert(ps[i].key@ == ns[i].id@);
        assert(ps[j].key@ == ns[j].id@);
        assert(!ps[j].precedes(&ps[i]));
    }
    assert forall|a: int, i: int, j: int| #![trigger ns[a].children@[i], ns[a].children@[j]]
        0 <= a < ns.len() && 0 <= i < j < ns[a].children@.len() implies ns[a].children@[i].source is Some
            && ns[a].children@[j].source is Some
            && !crate::order::text_lt(ns[a].children@[j].source->0.file@, ns[a].children@[i].source->0.file@) by {
        let p = ucm.packages@[ps[a].index as int];
        assert(package_node(p, ns[a], refs, ucm));
        assert(pk.contains(ps[a]));
        let m = choose|m: int| 0 <= m < pk.len() && pk[m] == ps[a];
        assert(p.files@.len() <= usize::MAX);
        let fk = kept_files(p.files@, ucm.symbols@).map_values(|i: int| TextIndex { key: p.files@[i], index: i as usize });
        let fs = sorted_files(p.files@, ucm.symbols@);
        assert(fs == stable_sorted(fk));
        lemma_kept_files(p.files@, ucm.symbols@);
        crate::order::lemma_stable_sorted_members(fk);
        crate::order::lemma_text_key_orders_well(fk, |t: TextIndex| t.key@);
        crate::order::law_stable_sort_in_order(fk);
        assert(fk.contains(fs[i]));
        assert(fk.contains(fs[j]));
        let mi = choose|m: int| 0 <= m < fk.len() && fk[m] == fs[i];
        let mj = choose|m: int| 0 <= m < fk.len() && fk[m] == fs[j];
        assert(file_node(p.files@[fs[i].index as int]@, ns[a].children@[i], refs, ucm));
        assert(file_node(p.files@[fs[j].index as int]@, ns[a].children@[j], refs, ucm));
        assert(!fs[j].precedes(&fs[i]));
    }
}

fn base_name_of(path: &String) -> (r: String)
    ensures
        r@ == base_name(path@),
{
    let cs = crate::text::chars_of(path.as_str());
    let mut i: usize = cs.len();
    assert(i == path@.len());
    assert(path@.take(path@.len() as int) =~= path@);
    while i > 0 && cs[i - 1] != '/'
        invariant
            i <= cs@.len(),
            cs@ == path@,
            last_slash(path@) == last_slash(path@.take(i as int)),
        decreases i,
    {
        assert(path@.take(i as int).drop_last() == path@.take((i - 1) as int));
        i = i - 1;
    }
    if i == 0 {
        assert(path@.take(0) =~= Seq::<char>::empty());
        path.clone()
    } else {
        assert(path@.take(i as int).last() == '/');
        let mut out = String::new();
        let mut k: usize = i;
        while k < cs.len()
            invariant
                i <= k <= cs@.len(),
                cs@ == path@,
                out@ == path@.subrange(i as int, k as int),
            decreases cs@.len() - k,
        {
            crate::text::push_char(&mut out, cs[k]);
            k = k + 1;
            assert(out@ =~= path@.subrange(i as int, k as int));
        }
        assert(path@.subrange(i as int, path@.len() as int) =~= path@.skip(i as int));
        out
    }
}

fn ends_with_text(s: &String, suffix: &str) -> (b: bool)
    ensures
        b == ends_with(s@, suffix@),
{
    let a = crate::text::chars_of(s.as_str());
    let b = crate::text::chars_of(suffix);
    if b.len() > a.len() {
        return false;
    }
    let off = a.len() - b.len();
    let mut i: usize = 0;
    while i < b.len()
        invariant
            0 <= i <= b@.len(),
            a@ == s@,
            b@ == suffix@,
            off == a@.len() - b@.len(),
            b@.len() <= a@.len(),
            a@.len() == a.len(),
            forall|j: int| 0 <= j < i ==> a@[off + j] == b@[j],
        decreases b@.len() - i,
    {
        if a[off + i] != b[i] {
            assert(s@.skip(off as int)[i as int] != suffix@[i as int]);
            return false;
        }
        i = i + 1;
    }
    assert(s@.skip(off as int) =~= suffix@);
    true
}

fn shown_of(syms: &Vec<Symbol>, file: &String) -> (r: Vec<usize>)
    ensures
        r@.map_values(|i: usize| i as int) == shown_indices(syms@, file@),
        forall|k: int| 0 <= k < r@.len() ==> (#[trigger] r@[k]) < syms@.len(),
{
    let mut r: Vec<usize> = Vec::new();
    let mut i: usize = 0;
    while i < syms.len()
        invariant
            0 <= i <= syms@.len(),
            r@.map_values(|i: usize| i as int) == shown_indices(syms@.take(i as int), file@),
            forall|k: int| 0 <= k < r@.len() ==> (#[trigger] r@[k]) < i,
        decreases syms@.len() - i,
    {
        assert(syms@.take((i + 1) as int).drop_last() == syms@.take(i as int));
        let s = &syms[i];
        if s.source.file == *file && (s.is_exported || same_text(s.package.as_str(), "main") || ends_with_text(&s.package, "/main")) {
            r.push(i);
        }
        i = i + 1;
        assert(r@.map_values(|i: usize| i as int) =~= shown_indices(syms@.take(i as int), file@));
    }
    assert(syms@.take(syms@.len() as int) == syms@);
    r
}

fn symbol_node_of(s: &Symbol, Ghost(ucm): Ghost<UnifiedCodeModel>) -> (n: VizNode)
    ensures
        symbol_node(*s, n, false, ucm),
{
    let kind = match s.kind {
        SymbolKind::Variable => NodeKind::Action,
        _ => NodeKind::Group,
    };
    let mut n = empty_node(s.id.clone(), kind, s.name.clone(), Layer::Flow);
    n.source = Some(SourceRef { file: s.source.file.clone(), start_line: s.source.start_line, end_line: s.source.end_line });
    n.symbol = Some(s.id.clone());
    assert(ref_views(n.cross_refs@) =~= Seq::<(Seq<char>, Seq<char>, Seq<char>)>::empty());
    n
}

fn file_node_of(file: &String, ucm: &UnifiedCodeModel) -> (n: VizNode)
    ensures
        file_node(file@, n, false, *ucm),
{
    let shown = shown_of(&ucm.symbols, file);
    let mut children: Vec<VizNode> = Vec::new();
    let mut k: usize = 0;
    while k < shown.len()
        invariant
            0 <= k <= shown@.len(),
            shown@.map_values(|i: usize| i as int) == shown_indices(ucm.symbols@, file@),
            forall|j: int| 0 <= j < shown@.len() ==> (#[trigger] shown@[j]) < ucm.symbols@.len(),
            children@.len() == k,
            forall|j: int| 0 <= j < k ==> symbol_node(ucm.symbols@[shown@[j] as int], #[trigger] children@[j], false, *ucm),
        decreases shown@.len() - k,
    {
        children.push(symbol_node_of(&ucm.symbols[shown[k]], Ghost(*ucm)));
        k = k + 1;
    }
    let mut id = String::from_str("file:");
    push_str(&mut id, file.as_str());
    let mut n = empty_node(id, NodeKind::Group, base_name_of(file), Layer::Flow);
    n.source = Some(SourceRef { file: file.clone(), start_line: 1, end_line: 1 });
    n.children = children;
    assert(ref_views(n.cross_refs@) =~= Seq::<(Seq<char>, Seq<char>, Seq<char>)>::empty());
    assert forall|j: int| 0 <= j < shown_indices(ucm.symbols@, file@).len() implies
        symbol_node(ucm.symbols@[#[trigger] shown_indices(ucm.symbols@, file@)[j]], n.children@[j], false, *ucm) by {
        assert(shown_indices(ucm.symbols@, file@)[j] == shown@[j] as int);
    }
    n
}

fn kept_files_of(files: &Vec<String>, ucm: &UnifiedCodeModel) -> (r: Vec<TextIndex>)
    ensures
        r@ == kept_files(files@, ucm.symbols@).map_values(|i: int| TextIndex { key: files@[i], index: i as usize }),
        forall|k: int| 0 <= k < r@.len() ==> (#[trigger] r@[k]).index < files@.len(),
{
    let mut r: Vec<TextIndex> = Vec::new();
    let mut i: usize = 0;
    while i < files.len()
        invariant
            0 <= i <= files@.len(),
            r@ == kept_files(files@.take(i as int), ucm.symbols@).map_values(|k: int| TextIndex { key: files@[k], index: k as usize }),
            forall|k: int| 0 <= k < r@.len() ==> (#[trigger] r@[k]).index < i,
        decreases files@.len() - i,
    {
        assert(files@.take((i + 1) as int).drop_last() == files@.take(i as int));
        let shown = shown_of(&ucm.symbols, &files[i]);
        if shown.len() > 0 {
            r.push(TextIndex { key: files[i].clone(), index: i });
        }
        i = i + 1;
        assert(r@ =~= kept_files(files@.take(i as int), ucm.symbols@).map_values(|k: int| TextIndex { key: files@[k], index: k as usize }));
    }
    assert(files@.take(files@.len() as int) == files@);
    r
}

fn package_node_of(p: &crate::ucm::Package, ucm: &UnifiedCodeModel) -> (n: VizNode)
    ensures
        package_node(*p, n, false, *ucm),
{
    let kept = kept_files_of(&p.files, ucm);
    let order = stable_sort(kept);
    proof {
        crate::order::lemma_stable_sorted_members(kept@);
    }
    let mut children: Vec<VizNode> = Vec::new();
    let mut k: usize = 0;
    while k < order.len()
        invariant
            0 <= k <= order@.len(),
            order@ == sorted_files(p.files@, ucm.symbols@),
            forall|j: int| 0 <= j < order@.len() ==> (#[trigger] order@[j]).index < p.files@.len(),
            children@.len() == k,
            forall|j: int| 0 <= j < k ==> file_node(p.files@[order@[j].index as int]@, #[trigger] children@[j], false, *ucm),
        decreases order@.len() - k,
    {
        children.push(file_node_of(&p.files[order[k].index], ucm));
        k = k + 1;
    }
    let mut n = empty_node(p.id.clone(), NodeKind::Group, p.name.clone(), Layer::Flow);
    n.children = children;
    assert(ref_views(n.cross_refs@) =~= Seq::<(Seq<char>, Seq<char>, Seq<char>)>::empty());
    n
}


fn kept_packages_in(ucm: &UnifiedCodeModel) -> (r: Vec<TextIndex>)
    ensures
        r@ == kept_packages(*ucm).map_values(|i: int| TextIndex { key: ucm.packages@[i].id, index: i as usize }),
        forall|k: int| 0 <= k < r@.len() ==> (#[trigger] r@[k]).index < ucm.packages@.len(),
{
    let ps = &ucm.packages;
    let mut r: Vec<TextIndex> = Vec::new();
    let mut i: usize = 0;
    while i < ps.len()
        invariant
            0 <= i <= ps@.len(),
            ps == &ucm.packages,
            r@ == kept_packages_of(ps@.take(i as int), ucm.symbols@).map_values(|k: int| TextIndex { key: ps@[k].id, index: k as usize }),
            forall|k: int| 0 <= k < r@.len() ==> (#[trigger] r@[k]).index < i,
        decreases ps@.len() - i,
    {
        assert(ps@.take((i + 1) as int).drop_last() == ps@.take(i as int));
        let kept = kept_files_of(&ps[i].files, ucm);
        if kept.len() > 0 {
            r.push(TextIndex { key: ps[i].id.clone(), index: i });
        }
        i = i + 1;
        assert(r@ =~= kept_packages_of(ps@.take(i as int), ucm.symbols@).map_values(|k: int| TextIndex { key: ps@[k].id, index: k as usize }));
    }
    assert(ps@.take(ps@.len() as int) == ps@);
    r
}

fn build_project_nodes(model: &UnifiedCodeModel) -> (ns: Vec<VizNode>)
    ensures
        project_nodes(*model, ns@, false),
{
    let kept = kept_packages_in(model);
    let order = stable_sort(kept);
    proof {
        crate::order::lemma_stable_sorted_members(kept@);
    }
    let mut ns: Vec<VizNode> = Vec::new();
    let mut k: usize = 0;
    while k < order.len()
        invariant
            0 <= k <= order@.len(),
            order@ == sorted_packages(*model),
            forall|j: int| 0 <= j < order@.len() ==> (#[trigger] order@[j]).index < model.packages@.len(),
            ns@.len() == k,
            forall|j: int| 0 <= j < k ==> package_node(model.packages@[order@[j].index as int], #[trigger] ns@[j], false, *model),
        decreases order@.len() - k,
    {
        ns.push(package_node_of(&model.packages[order[k].index], model));
        k = k + 1;
    }
    ns
}

proof fn lemma_symbol_node_refs(s: Symbol, b: VizNode, n: VizNode, ucm: UnifiedCodeModel)
    requires
        symbol_node(s, b, false, ucm),
        refs_attached(b, n, ucm),
    ensures
        symbol_node(s, n, true, ucm),
{
    assert(ref_views(n.cross_refs@) =~= refs_for(n.kind, n.symbol, ucm));
}

proof fn lemma_file_node_refs(file: Seq<char>, b: VizNode, n: VizNode, ucm: UnifiedCodeModel)
    requires
        file_node(file, b, false, ucm),
        refs_attached(b, n, ucm),
    ensures
        file_node(file, n, true, ucm),
{
    let shown = shown_indices(ucm.symbols@, file);
    assert(ref_views(n.cross_refs@) =~= refs_for(n.kind, n.symbol, ucm));
    assert forall|k: int| 0 <= k < shown.len() implies symbol_node(ucm.symbols@[#[trigger] shown[k]], n.children@[k], true, ucm) by {
        lemma_symbol_node_refs(ucm.symbols@[shown[k]], b.children@[k], n.children@[k], ucm);
    }
}

proof fn lemma_package_node_refs(p: crate::ucm::Package, b: VizNode, n: VizNode, ucm: UnifiedCodeModel)
    requires
        package_node(p, b, false, ucm),
        refs_attached(b, n, ucm),
    ensures
        package_node(p, n, true, ucm),
{
    let files = sorted_files(p.files@, ucm.symbols@);
    assert(ref_views(n.cross_refs@) =~= refs_for(n.kind, n.symbol, ucm));
    assert forall|k: int| 0 <= k < files.len() implies file_node(p.files@[#[trigger] files[k].index as int]@, n.children@[k], true, ucm) by {
        lemma_file_node_refs(p.files@[files[k].index as int]@, b.children@[k], n.children@[k], ucm);
    }
}

/// Builds the project map: packages, their files with exported (or `main`)
/// symbols, packages and files ordered by id, with cross references.
pub fn from_project(model: &UnifiedCodeModel) -> (viz: Visualization)
    ensures
        viz.title@ == "Project map"@,
        viz.level == Level::Project,
        viz.edges@.len() == 0,
        project_nodes(*model, viz.nodes@, true),
{
    let nodes = build_project_nodes(model);
    let mut viz = Visualization { title: String::from_str("Project map"), level: Level::Project, nodes, edges: Vec::new() };
    let ghost before = viz.nodes@;
    attach_cross_refs(&mut viz, model);
    proof {
        let ps = sorted_packages(*model);
        assert forall|k: int| 0 <= k < ps.len() implies package_node(model.packages@[#[trigger] ps[k].index as int], viz.nodes@[k], true, *model) by {
            lemma_package_node_refs(model.packages@[ps[k].index as int], before[k], viz.nodes@[k], *model);
        }
    }
    viz
}


// ---------------------------------------------------------------------------
// Labels from the LLM.

/// `c` is Unicode white space (what `char::is_whitespace` accepts).
pub open spec fn is_white_space(c: char) -> bool {
    let u = c as u32;
    (0x09 <= u && u <= 0x0d) || u == 0x20 || u == 0x85 || u == 0xa0 || u == 0x1680
        || (0x2000 <= u && u <= 0x200a) || u == 0x2028 || u == 0x2029 || u == 0x202f || u == 0x205f
        || u == 0x3000
}

pub open spec fn trim_start(s: Seq<char>) -> Seq<char>
    decreases s.len(),
{
    if s.len() > 0 && is_white_space(s[0]) { trim_start(s.drop_first()) } else { s }
}

pub open spec fn trim_end(s: Seq<char>) -> Seq<char>
    decreases s.len(),
{
    if s.len() > 0 && is_white_space(s.last()) { trim_end(s.drop_last()) } else { s }
}

/// `s` without leading and trailing white space (what `str::trim` does).
pub open spec fn trimmed(s: Seq<char>) -> Seq<char> {
    trim_start(trim_end(s))
}

/// The index of the last occurrence of `c` in `s`.
pub open spec fn last_index_of(s: Seq<char>, c: char) -> Option<int>
    decreases s.len(),
{
    if s.len() == 0 {
        None
    } else if s.last() == c {
        Some(s.len() - 1)
    } else {
        last_index_of(s.drop_last(), c)
    }
}

/// Where the JSON object in a reply starts: the first `{`, else the end.
pub open spec fn object_start(t: Seq<char>) -> int {
    match first_match(t, |x: char| x == '{') {
        Some(i) => i,
        None => t.len() as int,
    }
}

/// Where it ends: just after the last `}`, else the end.
pub open spec fn object_end(t: Seq<char>) -> int {
    match last_index_of(t, '}') {
        Some(i) => i + 1,
        None => t.len() as int,
    }
}

/// The reply is well enough formed to be cut: it starts with `{` once
/// trimmed, or its first `{` (if any) is not after its last `}` (if any).
pub open spec fn extractable(raw: Seq<char>) -> bool {
    let t = trimmed(raw);
    (t.len() > 0 && t[0] == '{') || object_start(t) <= object_end(t)
}

/// The JSON object cut out of an LLM reply.
pub open spec fn extracted(raw: Seq<char>) -> Seq<char> {
    let t = trimmed(raw);
    if t.len() > 0 && t[0] == '{' {
        t
    } else {
        t.subrange(object_start(t), object_end(t))
    }
}

fn is_white_space_char(c: char) -> (b: bool)
    ensures
        b == is_white_space(c),
{
    let u = c as u32;
    (0x09 <= u && u <= 0x0d) || u == 0x20 || u == 0x85 || u == 0xa0 || u == 0x1680
        || (0x2000 <= u && u <= 0x200a) || u == 0x2028 || u == 0x2029 || u == 0x202f || u == 0x205f
        || u == 0x3000
}

proof fn lemma_trim_start_skip(s: Seq<char>, i: int)
    requires
        0 <= i <= s.len(),
        forall|k: int| 0 <= k < i ==> is_white_space(#[trigger] s[k]),
    ensures
        trim_start(s) == trim_start(s.skip(i)),
    decreases i,
{
    if i > 0 {
        assert(s.drop_first().skip(i - 1) == s.skip(i));
        lemma_trim_start_skip(s.drop_first(), i - 1);
    } else {
        assert(s.skip(0) == s);
    }
}

proof fn lemma_trim_end_take(s: Seq<char>, j: int)
    requires
        0 <= j <= s.len(),
        forall|k: int| j <= k < s.len() ==> is_white_space(#[trigger] s[k]),
    ensures
        trim_end(s) == trim_end(s.take(j)),
    decreases s.len() - j,
{
    if j < s.len() {
        assert(s.drop_last().take(j) == s.take(j));
        lemma_trim_end_take(s.drop_last(), j);
    } else {
        assert(s.take(j) == s);
    }
}

/// Where the trimmed text lies in `cs` (`start..end`), and where in it the
/// object starts (`first`) and ends (`stop`).
#[verifier::spinoff_prover]
#[verifier::rlimit(40)]
fn cut_bounds(cs: &Vec<char>) -> (r: (usize, usize, usize, usize))
    ensures
        r.0 <= r.1 <= cs@.len(),
        trimmed(cs@) == cs@.subrange(r.0 as int, r.1 as int),
        r.2 as int == object_start(trimmed(cs@)),
        r.3 as int == object_end(trimmed(cs@)),
        r.2 <= r.1 - r.0,
        r.3 <= r.1 - r.0,
{
    let ghost raw = cs@;
    let mut end: usize = cs.len();
    assert(raw.take(raw.len() as int) =~= raw);
    while end > 0 && is_white_space_char(cs[end - 1])
        invariant
            end <= cs@.len(),
            cs@ == raw,
            forall|k: int| end <= k < cs@.len() ==> is_white_space(#[trigger] cs@[k]),
        decreases end,
    {
        end = end - 1;
    }
    proof {
        lemma_trim_end_take(raw, end as int);
    }
    let mut start: usize = 0;
    while start < end && is_white_space_char(cs[start])
        invariant
            start <= end <= cs@.len(),
            cs@ == raw,
            forall|k: int| 0 <= k < start ==> is_white_space(#[trigger] cs@[k]),
        decreases end - start,
    {
        start = start + 1;
    }
    let ghost t = raw.subrange(start as int, end as int);
    proof {
        let e = raw.take(end as int);
        assert forall|k: int| 0 <= k < start implies is_white_space(#[trigger] e[k]) by {
            assert(e[k] == cs@[k]);
        }
        lemma_trim_start_skip(e, start as int);
        assert(e.skip(start as int) =~= t);
        if t.len() > 0 {
            assert(t[0] == cs@[start as int]);
            assert(!is_white_space(t[0]));
        }
        assert(trim_start(t) == t);
        assert(trim_end(raw) == e);
        assert(trimmed(raw) == t);
    }
    let tlen = end - start;
    let ghost p = |x: char| x == '{';
    let mut first: usize = 0;
    while first < tlen && cs[start + first] != '{'
        invariant
            first <= tlen,
            tlen == end - start,
            start <= end <= cs@.len(),
            cs@ == raw,
            t == raw.subrange(start as int, end as int),
            p == (|x: char| x == '{'),
            first_match(t.take(first as int), p) is None,
        decreases tlen - first,
    {
        proof {
            crate::order::lemma_first_match_step(t, p, first as int);
        }
        first = first + 1;
    }
    proof {
        if first < tlen {
            crate::order::lemma_first_match_prefix(t, p, first as int);
        } else {
            assert(t.take(first as int) == t);
        }
    }
    let mut last: usize = tlen;
    assert(t.take(tlen as int) =~= t);
    while last > 0 && cs[start + last - 1] != '}'
        invariant
            last <= tlen,
            tlen == end - start,
            start <= end <= cs@.len(),
            cs@ == raw,
            t == raw.subrange(start as int, end as int),
            last_index_of(t, '}') == last_index_of(t.take(last as int), '}'),
        decreases last,
    {
        assert(t.take(last as int).drop_last() == t.take((last - 1) as int));
        last = last - 1;
    }
    let stop = if last == 0 { tlen } else { last };
    assert(stop == object_end(t));
    assert(first == object_start(t));
    (start, end, first, stop)
}

/// Cuts the JSON object out of an LLM reply: the trimmed reply when it starts
/// with `{`, else everything from its first `{` to its last `}`.
pub fn extract_json(raw: &str) -> (out: String)
    requires
        extractable(raw@),
    ensures
        out@ == extracted(raw@),
{
    let cs = crate::text::chars_of(raw);
    let (start, end, first, stop) = cut_bounds(&cs);
    let ghost t = trimmed(raw@);
    if end - start > 0 && cs[start] == '{' {
        assert(t[0] == cs@[start as int]);
        let whole = crate::text::slice_of(&cs, start, end);
        return crate::text::string_of(whole.as_slice());
    }
    let piece = crate::text::slice_of(&cs, start + first, start + stop);
    assert(piece@ =~= t.subrange(first as int, stop as int));
    crate::text::string_of(piece.as_slice())
}

/// Whether a reply can be cut (see `extractable`); the cut would fail otherwise.
pub fn is_extractable(raw: &str) -> (r: bool)
    ensures
        r == extractable(raw@),
{
    let cs = crate::text::chars_of(raw);
    let (start, end, first, stop) = cut_bounds(&cs);
    let ghost t = trimmed(raw@);
    if end - start > 0 {
        assert(t[0] == cs@[start as int]);
    }
    (end - start > 0 && cs[start] == '{') || first <= stop
}


/// A label the LLM wrote for one node.
pub struct LabelEntry {
    pub label: String,
    pub summary: Option<String>,
}

/// The labels of an LLM reply, keyed by node id.
pub struct LabelMap {
    pub labels: Vec<(String, LabelEntry)>,
}

/// The entry for node `id`: the first one with that key.
pub open spec fn label_for(labels: Seq<(String, LabelEntry)>, id: Seq<char>) -> Option<LabelEntry> {
    match first_match(labels, |e: (String, LabelEntry)| e.0@ == id) {
        Some(i) => Some(labels[i].1),
        None => None,
    }
}

/// `new` is `old` relabeled: a non-empty label and a present summary of the
/// node's entry replace the node's; nothing else changes, at any depth.
pub open spec fn labeled(old: VizNode, new: VizNode, labels: Seq<(String, LabelEntry)>) -> bool
    decreases old,
{
    let entry = label_for(labels, old.id@);
    &&& new.id == old.id
    &&& new.kind == old.kind
    &&& new.layer == old.layer
    &&& new.source == old.source
    &&& new.element_type == old.element_type
    &&& new.symbol == old.symbol
    &&& new.coverage_ids == old.coverage_ids
    &&& new.group_id == old.group_id
    &&& new.tests == old.tests
    &&& new.confidence == old.confidence
    &&& new.branches == old.branches
    &&& new.data_in == old.data_in
    &&& new.data_out == old.data_out
    &&& new.effects == old.effects
    &&& new.cross_refs == old.cross_refs
    &&& new.label == (match entry {
        Some(e) => if e.label@.len() > 0 { e.label } else { old.label },
        None => old.label,
    })
    &&& new.summary == (match entry {
        Some(e) => if e.summary is Some { e.summary } else { old.summary },
        None => old.summary,
    })
    &&& new.children@.len() == old.children@.len()
    &&& forall|i: int| 0 <= i < old.children@.len() ==> labeled(#[trigger] old.children@[i], new.children@[i], labels)
}

pub open spec fn labeled_forest(old: Seq<VizNode>, new: Seq<VizNode>, labels: Seq<(String, LabelEntry)>) -> bool {
    &&& new.len() == old.len()
    &&& forall|i: int| 0 <= i < old.len() ==> labeled(#[trigger] old[i], new[i], labels)
}

fn label_index(labels: &Vec<(String, LabelEntry)>, id: &String) -> (r: Option<usize>)
    ensures
        match r {
            Some(i) => i < labels@.len() && label_for(labels@, id@) == Some(labels@[i as int].1),
            None => label_for(labels@, id@) is None,
        },
{
    let ghost p = |e: (String, LabelEntry)| e.0@ == id@;
    let mut i: usize = 0;
    while i < labels.len()
        invariant
            0 <= i <= labels@.len(),
            p == (|e: (String, LabelEntry)| e.0@ == id@),
            first_match(labels@.take(i as int), p) is None,
        decreases labels@.len() - i,
    {
        if labels[i].0 == *id {
            proof {
                lemma_first_match_prefix(labels@, p, i as int);
            }
            return Some(i);
        }
        proof {
            lemma_first_match_step(labels@, p, i as int);
        }
        i = i + 1;
    }
    assert(labels@.take(labels@.len() as int) == labels@);
    None
}

fn label_node(node: &mut VizNode, labels: &Vec<(String, LabelEntry)>)
    ensures
        labeled(*old(node), *final(node), labels@),
    decreases *old(node),
{
    let ghost orig = *node;
    if let Some(i) = label_index(labels, &node.id) {
        let entry = &labels[i].1;
        if entry.label.unicode_len() > 0 {
            node.label = entry.label.clone();
        }
        if entry.summary.is_some() {
            node.summary = entry.summary.clone();
        }
    }
    let mut pending: Vec<VizNode> = Vec::new();
    std::mem::swap(&mut pending, &mut node.children);
    let ghost kids = orig.children@;
    assert(kids.len() == pending.len());
    let mut done: Vec<VizNode> = Vec::new();
    let mut k: usize = 0;
    while pending.len() > 0
        invariant
            kids == orig.children@,
            orig == *old(node),
            k <= kids.len(),
            kids.len() <= usize::MAX,
            pending@ == kids.skip(k as int),
            done@.len() == k,
            forall|i: int| 0 <= i < k ==> labeled(#[trigger] kids[i], done@[i], labels@),
        decreases pending@.len(),
    {
        assert(k < kids.len());
        let mut c = pending.remove(0);
        assert(c == kids[k as int]);
        assert(decreases_to!(orig => orig.children));
        assert(decreases_to!(orig.children => orig.children@));
        assert(decreases_to!(orig.children@ => orig.children@[k as int]));
        label_node(&mut c, labels);
        done.push(c);
        k = k + 1;
        assert(pending@ =~= kids.skip(k as int));
    }
    node.children = done;
}

/// Applies the LLM's labels to the nodes they name. Labels never add, remove,
/// move or rename nodes.
pub fn apply_labels(viz: &mut Visualization, labels: &LabelMap)
    ensures
        final(viz).title == old(viz).title,
        final(viz).level == old(viz).level,
        final(viz).edges == old(viz).edges,
        labeled_forest(old(viz).nodes@, final(viz).nodes@, labels.labels@),
{
    let ghost kids = viz.nodes@;
    let mut pending: Vec<VizNode> = Vec::new();
    std::mem::swap(&mut pending, &mut viz.nodes);
    assert(kids.len() == pending.len());
    let mut done: Vec<VizNode> = Vec::new();
    let mut k: usize = 0;
    while pending.len() > 0
        invariant
            k <= kids.len(),
            kids.len() <= usize::MAX,
            pending@ == kids.skip(k as int),
            done@.len() == k,
            forall|i: int| 0 <= i < k ==> labeled(#[trigger] kids[i], done@[i], labels.labels@),
        decreases pending@.len(),
    {
        assert(k < kids.len());
        let mut c = pending.remove(0);
        assert(c == kids[k as int]);
        label_node(&mut c, &labels.labels);
        done.push(c);
        k = k + 1;
        assert(pending@ =~= kids.skip(k as int));
    }
    viz.nodes = done;
}

// ---------------------------------------------------------------------------
// Checking a reply against its window.

pub open spec fn msg_missing_entry(id: Seq<char>) -> Seq<char> {
    "id '"@ + id + "' of the current window has no entry"@
}

pub open spec fn msg_empty_label(id: Seq<char>) -> Seq<char> {
    "entry for '"@ + id + "' has an empty label"@
}

pub open spec fn msg_empty_summary(id: Seq<char>) -> Seq<char> {
    "entry for '"@ + id + "' has an empty summary"@
}

pub open spec fn msg_outside_window(id: Seq<char>) -> Seq<char> {
    "entry for '"@ + id + "' is not in the current window"@
}

/// What is wrong with the entry for one expected id: it is missing, or its
/// label or its summary is empty (a missing summary counts as empty).
pub open spec fn entry_problems(labels: Seq<(String, LabelEntry)>, id: Seq<char>) -> Seq<Seq<char>> {
    match label_for(labels, id) {
        None => seq![msg_missing_entry(id)],
        Some(e) => (if e.label@.len() == 0 { seq![msg_empty_label(id)] } else { Seq::<Seq<char>>::empty() })
            + (if (match e.summary { Some(t) => t@.len() == 0, None => true }) {
                seq![msg_empty_summary(id)]
            } else {
                Seq::<Seq<char>>::empty()
            }),
    }
}

pub open spec fn expected_problems(labels: Seq<(String, LabelEntry)>, ids: Seq<Seq<char>>) -> Seq<Seq<char>>
    decreases ids.len(),
{
    if ids.len() == 0 {
        seq![]
    } else {
        expected_problems(labels, ids.drop_last()) + entry_problems(labels, ids.last())
    }
}

pub open spec fn outside_problems(labels: Seq<(String, LabelEntry)>, ids: Seq<Seq<char>>) -> Seq<Seq<char>>
    decreases labels.len(),
{
    if labels.len() == 0 {
        seq![]
    } else {
        outside_problems(labels.drop_last(), ids) + if ids.contains(labels.last().0@) {
            Seq::<Seq<char>>::empty()
        } else {
            seq![msg_outside_window(labels.last().0@)]
        }
    }
}

/// What is wrong with a reply for a window whose ids are `ids`: every id of
/// the window needs an entry with a non-empty label and summary, and the
/// reply may label no other id. Problems of the window's ids come first, in
/// window order, then the entries outside the window, in reply order.
pub open spec fn window_problems(labels: Seq<(String, LabelEntry)>, ids: Seq<Seq<char>>) -> Seq<Seq<char>> {
    expected_problems(labels, ids) + outside_problems(labels, ids)
}

fn push_entry_problems(out: &mut Vec<String>, labels: &Vec<(String, LabelEntry)>, id: &String)
    ensures
        crate::validate::views(final(out)@) == crate::validate::views(old(out)@) + entry_problems(labels@, id@),
{
    let ghost before = crate::validate::views(out@);
    match label_index(labels, id) {
        None => {
            let mut m = String::from_str("id '");
            push_str(&mut m, id.as_str());
            push_str(&mut m, "' of the current window has no entry");
            out.push(m);
            assert(crate::validate::views(out@) =~= before + entry_problems(labels@, id@));
        },
        Some(i) => {
            let e = &labels[i].1;
            if e.label.unicode_len() == 0 {
                let mut m = String::from_str("entry for '");
                push_str(&mut m, id.as_str());
                push_str(&mut m, "' has an empty label");
                out.push(m);
            }
            let empty_summary = match &e.summary {
                Some(t) => t.unicode_len() == 0,
                None => true,
            };
            if empty_summary {
                let mut m = String::from_str("entry for '");
                push_str(&mut m, id.as_str());
                push_str(&mut m, "' has an empty summary");
                out.push(m);
            }
            assert(crate::validate::views(out@) =~= before + entry_problems(labels@, id@));
        },
    }
}

/// The problems of a reply for a window (see `window_problems`).
pub fn check_window_labels(labels: &LabelMap, ids: &Vec<String>) -> (out: Vec<String>)
    ensures
        crate::validate::views(out@) == window_problems(labels.labels@, crate::validate::views(ids@)),
{
    let ls = &labels.labels;
    let ghost idv = crate::validate::views(ids@);
    let mut out: Vec<String> = Vec::new();
    let mut i: usize = 0;
    while i < ids.len()
        invariant
            0 <= i <= ids@.len(),
            idv == crate::validate::views(ids@),
            crate::validate::views(out@) == expected_problems(ls@, idv.take(i as int)),
        decreases ids@.len() - i,
    {
        assert(idv.take((i + 1) as int).drop_last() == idv.take(i as int));
        assert(idv.take((i + 1) as int).last() == ids@[i as int]@);
        push_entry_problems(&mut out, ls, &ids[i]);
        i = i + 1;
    }
    assert(idv.take(ids@.len() as int) == idv);
    let ghost head = crate::validate::views(out@);
    let mut k: usize = 0;
    while k < ls.len()
        invariant
            0 <= k <= ls@.len(),
            idv == crate::validate::views(ids@),
            head == expected_problems(ls@, idv),
            crate::validate::views(out@) == head + outside_problems(ls@.take(k as int), idv),
        decreases ls@.len() - k,
    {
        assert(ls@.take((k + 1) as int).drop_last() == ls@.take(k as int));
        assert(ls@.take((k + 1) as int).last() == ls@[k as int]);
        let ghost before = crate::validate::views(out@);
        if !crate::validate::contains_text(ids, &ls[k].0) {
            let mut m = String::from_str("entry for '");
            push_str(&mut m, ls[k].0.as_str());
            push_str(&mut m, "' is not in the current window");
            out.push(m);
            assert(crate::validate::views(out@) =~= before.push(msg_outside_window(ls@[k as int].0@)));
        }
        k = k + 1;
        assert(crate::validate::views(out@) =~= head + outside_problems(ls@.take(k as int), idv));
    }
    assert(ls@.take(ls@.len() as int) == ls@);
    out
}

/// The entry for `id` has a non-empty label and a non-empty summary.
pub open spec fn complete_entry(labels: Seq<(String, LabelEntry)>, id: Seq<char>) -> bool {
    match label_for(labels, id) {
        Some(e) => e.label@.len() > 0 && (match e.summary { Some(t) => t@.len() > 0, None => false }),
        None => false,
    }
}

proof fn lemma_expected_problems_empty(labels: Seq<(String, LabelEntry)>, ids: Seq<Seq<char>>)
    requires
        expected_problems(labels, ids).len() == 0,
    ensures
        forall|i: int| 0 <= i < ids.len() ==> complete_entry(labels, #[trigger] ids[i]),
    decreases ids.len(),
{
    if ids.len() > 0 {
        lemma_expected_problems_empty(labels, ids.drop_last());
        assert forall|i: int| 0 <= i < ids.len() implies complete_entry(labels, #[trigger] ids[i]) by {
            if i < ids.len() - 1 {
                assert(ids[i] == ids.drop_last()[i]);
            }
        }
    }
}

proof fn lemma_outside_problems_empty(labels: Seq<(String, LabelEntry)>, ids: Seq<Seq<char>>)
    requires
        outside_problems(labels, ids).len() == 0,
    ensures
        forall|k: int| 0 <= k < labels.len() ==> ids.contains((#[trigger] labels[k]).0@),
    decreases labels.len(),
{
    if labels.len() > 0 {
        lemma_outside_problems_empty(labels.drop_last(), ids);
        assert forall|k: int| 0 <= k < labels.len() implies ids.contains((#[trigger] labels[k]).0@) by {
            if k < labels.len() - 1 {
                assert(labels[k] == labels.drop_last()[k]);
            }
        }
    }
}

/// A reply is accepted for a window exactly when it labels that window and
/// nothing else: every id of the window has an entry with a non-empty label
/// and summary, and every entry is for an id of the window.
pub proof fn law_accepted_reply_labels_the_window(labels: Seq<(String, LabelEntry)>, ids: Seq<Seq<char>>)
    ensures
        window_problems(labels, ids).len() == 0 <==> (
            (forall|i: int| 0 <= i < ids.len() ==> complete_entry(labels, #[trigger] ids[i]))
            && (forall|k: int| 0 <= k < labels.len() ==> ids.contains((#[trigger] labels[k]).0@))
        ),
{
    if window_problems(labels, ids).len() == 0 {
        lemma_expected_problems_empty(labels, ids);
        lemma_outside_problems_empty(labels, ids);
    } else {
        lemma_some_problem(labels, ids);
    }
}

proof fn lemma_some_problem(labels: Seq<(String, LabelEntry)>, ids: Seq<Seq<char>>)
    requires
        window_problems(labels, ids).len() > 0,
    ensures
        (exists|i: int| 0 <= i < ids.len() && !complete_entry(labels, #[trigger] ids[i]))
            || (exists|k: int| 0 <= k < labels.len() && !ids.contains((#[trigger] labels[k]).0@)),
{
    if expected_problems(labels, ids).len() > 0 {
        lemma_expected_problem_witness(labels, ids);
    } else {
        lemma_outside_problem_witness(labels, ids);
    }
}

proof fn lemma_expected_problem_witness(labels: Seq<(String, LabelEntry)>, ids: Seq<Seq<char>>)
    requires
        expected_problems(labels, ids).len() > 0,
    ensures
        exists|i: int| 0 <= i < ids.len() && !complete_entry(labels, #[trigger] ids[i]),
    decreases ids.len(),
{
    let n = ids.len() - 1;
    if entry_problems(labels, ids[n]).len() > 0 {
        assert(!complete_entry(labels, ids[n]));
    } else {
        lemma_expected_problem_witness(labels, ids.drop_last());
        let i = choose|i: int| 0 <= i < ids.drop_last().len() && !complete_entry(labels, #[trigger] ids.drop_last()[i]);
        assert(ids[i] == ids.drop_last()[i]);
    }
}

proof fn lemma_outside_problem_witness(labels: Seq<(String, LabelEntry)>, ids: Seq<Seq<char>>)
    requires
        outside_problems(labels, ids).len() > 0,
    ensures
        exists|k: int| 0 <= k < labels.len() && !ids.contains((#[trigger] labels[k]).0@),
    decreases labels.len(),
{
    let n = labels.len() - 1;
    if !ids.contains(labels[n].0@) {
    } else {
        lemma_outside_problem_witness(labels.drop_last(), ids);
        let k = choose|k: int| 0 <= k < labels.drop_last().len() && !ids.contains((#[trigger] labels.drop_last()[k]).0@);
        assert(labels[k] == labels.drop_last()[k]);
    }
}

/// Applies the labels of a reply for a window, but only when the reply has a
/// complete entry for each of the window's ids and none for another id;
/// otherwise nothing changes and the problems are reported, separated by `; `.
pub fn apply_labels_strict(viz: &mut Visualization, labels: &LabelMap, ids: &Vec<String>) -> (r: Result<(), String>)
    ensures
        window_problems(labels.labels@, crate::validate::views(ids@)).len() == 0 ==> {
            &&& r is Ok
            &&& final(viz).title == old(viz).title
            &&& final(viz).level == old(viz).level
            &&& final(viz).edges == old(viz).edges
            &&& labeled_forest(old(viz).nodes@, final(viz).nodes@, labels.labels@)
        },
        window_problems(labels.labels@, crate::validate::views(ids@)).len() > 0 ==> {
            &&& r matches Err(m) && m@ == crate::pipeline::joined(window_problems(labels.labels@, crate::validate::views(ids@)), "; "@)
            &&& *final(viz) == *old(viz)
        },
{
    let problems = check_window_labels(labels, ids);
    if problems.len() == 0 {
        apply_labels(viz, labels);
        return Ok(());
    }
    let ghost pv = crate::validate::views(problems@);
    let mut m = String::new();
    let mut i: usize = 0;
    while i < problems.len()
        invariant
            0 <= i <= problems@.len(),
            pv == crate::validate::views(problems@),
            m@ == crate::pipeline::joined(pv.take(i as int), "; "@),
        decreases problems@.len() - i,
    {
        crate::pipeline::push_joined(&mut m, "; ", problems[i].as_str(), i == 0, Ghost(pv.take(i as int)));
        assert(pv.take((i + 1) as int) == pv.take(i as int).push(problems@[i as int]@));
        i = i + 1;
    }
    assert(pv.take(problems@.len() as int) == pv);
    Err(m)
}

/// Two nodes agree on what the diagram's structure is made of: id, kind, layer and source.
pub open spec fn same_shape(a: VizNode, b: VizNode) -> bool {
    a.id == b.id && a.kind == b.kind && a.layer == b.layer && a.source == b.source
}

proof fn lemma_tree_labeled_shape(old: VizNode, new: VizNode, labels: Seq<(String, LabelEntry)>)
    requires
        labeled(old, new, labels),
    ensures
        crate::pipeline::tree_flat(new).len() == crate::pipeline::tree_flat(old).len(),
        forall|i: int| 0 <= i < crate::pipeline::tree_flat(old).len()
            ==> same_shape(#[trigger] crate::pipeline::tree_flat(old)[i], crate::pipeline::tree_flat(new)[i]),
        crate::validate::tree_ids(new) == crate::validate::tree_ids(old),
    decreases old,
{
    assert(decreases_to!(old => old.children));
    lemma_forest_labeled_shape(old.children@, new.children@, labels);
    let a = crate::pipeline::forest_flat(old.children@);
    let b = crate::pipeline::forest_flat(new.children@);
    assert(crate::pipeline::tree_flat(old) == seq![old] + a);
    assert(crate::pipeline::tree_flat(new) == seq![new] + b);
    assert forall|i: int| 0 <= i < crate::pipeline::tree_flat(old).len()
        implies same_shape(#[trigger] crate::pipeline::tree_flat(old)[i], crate::pipeline::tree_flat(new)[i]) by {
        if i > 0 {
            assert(crate::pipeline::tree_flat(old)[i] == a[i - 1]);
            assert(crate::pipeline::tree_flat(new)[i] == b[i - 1]);
        }
    }
}

proof fn lemma_forest_labeled_shape(old: Seq<VizNode>, new: Seq<VizNode>, labels: Seq<(String, LabelEntry)>)
    requires
        labeled_forest(old, new, labels),
    ensures
        crate::pipeline::forest_flat(new).len() == crate::pipeline::forest_flat(old).len(),
        forall|i: int| 0 <= i < crate::pipeline::forest_flat(old).len()
            ==> same_shape(#[trigger] crate::pipeline::forest_flat(old)[i], crate::pipeline::forest_flat(new)[i]),
        crate::validate::forest_ids(new) == crate::validate::forest_ids(old),
    decreases old,
{
    if old.len() > 0 {
        let n = old.len() - 1;
        assert(labeled(old[n], new[n], labels));
        assert(labeled_forest(old.drop_last(), new.drop_last(), labels)) by {
            assert forall|i: int| 0 <= i < old.drop_last().len() implies labeled(#[trigger] old.drop_last()[i], new.drop_last()[i], labels) by {
                assert(labeled(old[i], new[i], labels));
            }
        }
        assert(decreases_to!(old => old.drop_last()));
        assert(decreases_to!(old => old.last()));
        lemma_forest_labeled_shape(old.drop_last(), new.drop_last(), labels);
        lemma_tree_labeled_shape(old.last(), new.last(), labels);
        let a = crate::pipeline::forest_flat(old.drop_last());
        let b = crate::pipeline::tree_flat(old.last());
        let c = crate::pipeline::forest_flat(new.drop_last());
        let d = crate::pipeline::tree_flat(new.last());
        assert(crate::pipeline::forest_flat(old) == a + b);
        assert(crate::pipeline::forest_flat(new) == c + d);
        assert forall|i: int| 0 <= i < crate::pipeline::forest_flat(old).len()
            implies same_shape(#[trigger] crate::pipeline::forest_flat(old)[i], crate::pipeline::forest_flat(new)[i]) by {
            if i < a.len() {
                assert(crate::pipeline::forest_flat(old)[i] == a[i]);
                assert(crate::pipeline::forest_flat(new)[i] == c[i]);
            } else {
                assert(crate::pipeline::forest_flat(old)[i] == b[i - a.len()]);
                assert(crate::pipeline::forest_flat(new)[i] == d[i - a.len()]);
            }
        }
    }
}

/// Labels only name and explain nodes: after applying them the diagram has
/// the same nodes, in the same order, with the same ids, kinds, layers and
/// sources; no node is added, removed, moved or renamed.
pub proof fn law_labels_keep_structure(old: Visualization, new: Visualization, labels: Seq<(String, LabelEntry)>)
    requires
        labeled_forest(old.nodes@, new.nodes@, labels),
    ensures
        crate::pipeline::forest_flat(new.nodes@).len() == crate::pipeline::forest_flat(old.nodes@).len(),
        forall|i: int| 0 <= i < crate::pipeline::forest_flat(old.nodes@).len()
            ==> same_shape(#[trigger] crate::pipeline::forest_flat(old.nodes@)[i], crate::pipeline::forest_flat(new.nodes@)[i]),
        crate::validate::forest_ids(new.nodes@) == crate::validate::forest_ids(old.nodes@),
{
    lemma_forest_labeled_shape(old.nodes@, new.nodes@, labels);
}

} // verus!
