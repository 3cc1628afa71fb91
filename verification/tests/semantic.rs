use graphloom::dsl::{Layer, Level, NodeKind, Visualization, VizEdge, VizNode};
use graphloom::semantic::{
    apply_labels, apply_labels_strict, check_window_labels, extract_json, file_tree_buildable, from_entities,
    from_function, from_project, humanize, is_extractable, layer_for, LabelEntry, LabelMap,
};
use graphloom::ucm::{Entity, Package, SourceRange, Symbol, SymbolKind, UnifiedCodeModel};

fn node(id: &str) -> VizNode {
    VizNode {
        id: id.to_string(),
        kind: NodeKind::Group,
        label: id.to_string(),
        layer: Layer::Calls,
        source: None,
        element_type: None,
        symbol: None,
        summary: None,
        coverage_ids: vec![],
        group_id: None,
        tests: None,
        confidence: None,
        children: vec![],
        branches: vec![],
        data_in: vec![],
        data_out: vec![],
        effects: vec![],
        cross_refs: vec![],
    }
}

fn range(file: &str, start: u32, end: u32) -> SourceRange {
    SourceRange { file: file.to_string(), start_line: start, end_line: end }
}

fn entity(id: &str, kind: &str, name: &str, parent: &str, start: u32) -> Entity {
    Entity {
        id: id.to_string(),
        kind: kind.to_string(),
        name: name.to_string(),
        label: String::new(),
        symbol: String::new(),
        callee: String::new(),
        condition: String::new(),
        source: range("main.go", start, start),
        parent_id: parent.to_string(),
        children: vec![],
        coverage: false,
    }
}

fn symbol(id: &str, name: &str, package: &str, file: &str, exported: bool) -> Symbol {
    Symbol {
        id: id.to_string(),
        kind: SymbolKind::Function,
        name: name.to_string(),
        package: package.to_string(),
        source: range(file, 1, 5),
        signature: "func()".to_string(),
        is_exported: exported,
        is_async: false,
    }
}

fn empty_model() -> UnifiedCodeModel {
    UnifiedCodeModel {
        language: "go".to_string(),
        packages: vec![],
        symbols: vec![],
        calls: vec![],
        effects: vec![],
        entities: vec![],
        errors: vec![],
    }
}

#[test]
fn extract_json_returns_plain_object() {
    let raw = r#"{"labels": {}}"#;
    assert_eq!(extract_json(raw), r#"{"labels": {}}"#);
}

#[test]
fn extract_json_strips_markdown_fence() {
    let raw = "Here is the JSON:\n```json\n{\"labels\": {}}\n```\nDone.";
    assert_eq!(extract_json(raw), "{\"labels\": {}}");
}

#[test]
fn extract_json_returns_empty_when_no_braces() {
    let raw = "no json here";
    assert_eq!(extract_json(raw), "");
}

#[test]
fn extract_json_trims_surrounding_space() {
    assert_eq!(extract_json("  \n {\"a\": 1}  \n"), "{\"a\": 1}");
}

#[test]
fn reply_with_closing_brace_before_opening_one_cannot_be_cut() {
    assert!(!is_extractable("} and then {"));
    assert!(is_extractable("no json here"));
    assert!(is_extractable("text {\"a\": 1} text"));
}

#[test]
fn humanize_names_entities_in_russian() {
    assert_eq!(humanize("Run", "function"), "Функция Run");
    assert_eq!(humanize("cfg", "variable"), "Переменная cfg");
    assert_eq!(humanize("x > 0", "if"), "Условие");
    assert_eq!(humanize("", "loop"), "loop");
    assert_eq!(humanize("x", "return"), "Возврат");
    assert_eq!(humanize("for", "loop"), "Цикл");
    assert_eq!(humanize("other", "statement"), "other");
}

#[test]
fn layer_for_kinds() {
    assert_eq!(layer_for("call"), Layer::Calls);
    assert_eq!(layer_for("return"), Layer::Data);
    assert_eq!(layer_for("variable"), Layer::State);
    assert_eq!(layer_for("if"), Layer::Flow);
}

#[test]
fn labels_change_only_label_and_summary() {
    let mut parent = node("a");
    parent.children.push(node("b"));
    let mut viz = Visualization {
        title: "t".to_string(),
        level: Level::Project,
        nodes: vec![parent],
        edges: vec![VizEdge { from: "a".to_string(), to: "b".to_string(), label: None, status: None }],
    };
    let labels = LabelMap {
        labels: vec![
            ("b".to_string(), LabelEntry { label: "Второй".to_string(), summary: Some("Делает второе.".to_string()) }),
            ("a".to_string(), LabelEntry { label: String::new(), summary: Some("Первый шаг.".to_string()) }),
            ("ghost".to_string(), LabelEntry { label: "Нет такого".to_string(), summary: None }),
        ],
    };
    apply_labels(&mut viz, &labels);
    assert_eq!(viz.nodes.len(), 1);
    assert_eq!(viz.nodes[0].id, "a");
    assert_eq!(viz.nodes[0].label, "a");
    assert_eq!(viz.nodes[0].summary.as_deref(), Some("Первый шаг."));
    assert_eq!(viz.nodes[0].children.len(), 1);
    assert_eq!(viz.nodes[0].children[0].id, "b");
    assert_eq!(viz.nodes[0].children[0].label, "Второй");
    assert_eq!(viz.edges.len(), 1);
}

#[test]
fn file_tree_orders_children_by_line() {
    let mut model = empty_model();
    model.entities = vec![
        entity("file:main.go", "file", "main.go", "", 1),
        entity("f2", "function", "Second", "file:main.go", 20),
        entity("f1", "function", "First", "file:main.go", 3),
    ];
    assert!(file_tree_buildable(&model, "main.go"));
    let viz = from_entities("main.go", "", &model);
    assert_eq!(viz.title, "main.go");
    assert_eq!(viz.level, Level::File);
    assert_eq!(viz.nodes.len(), 1);
    let root = &viz.nodes[0];
    assert_eq!(root.id, "file:main.go");
    assert_eq!(root.children.len(), 2);
    assert_eq!(root.children[0].id, "f1");
    assert_eq!(root.children[0].label, "Функция First");
    assert_eq!(root.children[1].id, "f2");
}

#[test]
fn cyclic_entities_are_not_buildable() {
    let mut model = empty_model();
    model.entities = vec![
        entity("file:main.go", "file", "main.go", "", 1),
        entity("a", "if", "x", "file:main.go", 2),
        entity("b", "if", "y", "c", 3),
        entity("c", "if", "z", "b", 4),
        entity("d", "if", "w", "a", 5),
        entity("a", "if", "again", "d", 6),
    ];
    assert!(!file_tree_buildable(&model, "main.go"));
}

#[test]
fn function_diagram_reports_unknown_symbol() {
    let model = empty_model();
    match from_function("pkg.Missing", "", &model) {
        Err(message) => assert_eq!(message, "function entity for symbol 'pkg.Missing' not found"),
        Ok(_) => panic!("a diagram for an unknown symbol"),
    }
}

#[test]
fn project_map_lists_packages_files_and_exported_symbols() {
    let mut model = empty_model();
    model.packages = vec![Package {
        id: "app/main".to_string(),
        name: "main".to_string(),
        dir: "cmd".to_string(),
        files: vec!["cmd/main.go".to_string()],
    }];
    model.symbols = vec![
        symbol("app/main.Run", "Run", "app/main", "cmd/main.go", true),
        symbol("app/main.helper", "helper", "app/main", "cmd/main.go", false),
    ];
    let viz = from_project(&model);
    assert_eq!(viz.level, Level::Project);
    assert_eq!(viz.nodes.len(), 1);
    assert_eq!(viz.nodes[0].id, "app/main");
    assert_eq!(viz.nodes[0].children.len(), 1);
    let file = &viz.nodes[0].children[0];
    assert_eq!(file.id, "file:cmd/main.go");
    assert_eq!(file.label, "main.go");
    assert_eq!(file.children.len(), 2);
    assert!(file.children.iter().any(|n| n.symbol.as_deref() == Some("app/main.Run")));
}

#[test]
fn project_map_hides_unexported_symbols_outside_main() {
    let mut model = empty_model();
    model.packages = vec![Package {
        id: "app/util".to_string(),
        name: "util".to_string(),
        dir: "util".to_string(),
        files: vec!["util/a.go".to_string(), "util/b.go".to_string()],
    }];
    model.symbols = vec![
        symbol("app/util.Join", "Join", "app/util", "util/a.go", true),
        symbol("app/util.split", "split", "app/util", "util/a.go", false),
        symbol("app/util.hidden", "hidden", "app/util", "util/b.go", false),
    ];
    let viz = from_project(&model);
    assert_eq!(viz.nodes.len(), 1);
    assert_eq!(viz.nodes[0].children.len(), 1);
    assert_eq!(viz.nodes[0].children[0].children.len(), 1);
    assert_eq!(viz.nodes[0].children[0].children[0].id, "app/util.Join");
}

fn conditional(id: &str, kind: &str, name: &str, parent: &str, start: u32, condition: &str) -> Entity {
    let mut e = entity(id, kind, name, parent, start);
    e.condition = condition.to_string();
    e
}

#[test]
fn decisions_and_loops_show_their_condition() {
    let mut model = empty_model();
    model.entities = vec![
        entity("file:main.go", "file", "main.go", "", 1),
        conditional("if1", "if", "if", "file:main.go", 2, "x > 0"),
        conditional("else1", "else", "else", "file:main.go", 4, ""),
        conditional("loop1", "loop", "range", "file:main.go", 6, "items"),
        conditional("loop2", "loop", "for", "file:main.go", 8, "i := 0; i < n; i++"),
        conditional("loop3", "loop", "for", "file:main.go", 10, ""),
        conditional("ret", "return", "x", "file:main.go", 12, ""),
    ];
    let viz = from_entities("main.go", "", &model);
    let kids = &viz.nodes[0].children;
    assert_eq!(kids[0].kind, NodeKind::Decision);
    assert!(kids[0].label.contains("if ") && kids[0].label.contains("x > 0"));
    assert_eq!(kids[0].label, "if x > 0");
    assert_eq!(kids[0].summary.as_deref(), Some("x > 0"));
    assert_eq!(kids[1].label, "else");
    assert_eq!(kids[1].summary, None);
    assert_eq!(kids[2].kind, NodeKind::Loop);
    assert_eq!(kids[2].label, "range items");
    assert_eq!(kids[2].summary.as_deref(), Some("items"));
    assert_eq!(kids[3].label, "loop i := 0; i < n; i++");
    assert_eq!(kids[4].label, "Цикл");
    assert_eq!(kids[5].label, "Возврат");
}

fn entry(label: &str, summary: Option<&str>) -> LabelEntry {
    LabelEntry { label: label.to_string(), summary: summary.map(|s| s.to_string()) }
}

#[test]
fn strict_labels_need_exactly_the_window() {
    let mut viz = Visualization { title: "t".to_string(), level: Level::File, nodes: vec![node("a"), node("b")], edges: vec![] };
    let window = vec!["a".to_string(), "b".to_string()];
    let bad = LabelMap {
        labels: vec![
            ("a".to_string(), entry("", Some("Шаг."))),
            ("z".to_string(), entry("Чужой", Some("Не из окна."))),
        ],
    };
    assert_eq!(
        check_window_labels(&bad, &window),
        vec![
            "entry for 'a' has an empty label".to_string(),
            "id 'b' of the current window has no entry".to_string(),
            "entry for 'z' is not in the current window".to_string(),
        ]
    );
    let err = apply_labels_strict(&mut viz, &bad, &window).unwrap_err();
    assert_eq!(
        err,
        "entry for 'a' has an empty label; id 'b' of the current window has no entry; entry for 'z' is not in the current window"
    );
    assert_eq!(viz.nodes[0].label, "a");
    let no_summary = LabelMap {
        labels: vec![("a".to_string(), entry("Первый", None)), ("b".to_string(), entry("Второй", Some("")))],
    };
    assert_eq!(
        apply_labels_strict(&mut viz, &no_summary, &window).unwrap_err(),
        "entry for 'a' has an empty summary; entry for 'b' has an empty summary"
    );
    let good = LabelMap {
        labels: vec![("b".to_string(), entry("Второй", Some("Второе."))), ("a".to_string(), entry("Первый", Some("Первое.")))],
    };
    assert!(apply_labels_strict(&mut viz, &good, &window).is_ok());
    assert_eq!(viz.nodes[0].label, "Первый");
    assert_eq!(viz.nodes[1].summary.as_deref(), Some("Второе."));
}
