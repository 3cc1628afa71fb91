use graphloom::dsl::{Layer, NodeKind, SourceRef, Visualization, VizNode, Level};
use graphloom::pipeline::{
    after_reply, cached_entry, check_unchanged, classify_file, collect_files, compile_error_visualization,
    count_nodes, diagnostics_message, errors_for_file, format_analysis_error, label_nodes, label_request,
    label_window, model_cache_usable, numbered_source, pipeline_output, plan_entry, report_paths,
    sort_file_infos, source_for_node, source_window, start_labeling, symbol_infos, symbol_source_file, update_paths, update_plan,
    updated_file_state, FileInfo, LabelAction, LabelNode, LabelReply, PipelineOutput, UpdateFile,
};
use graphloom::state::{map_insert, FileState};
use graphloom::ucm::{AnalysisError, Entity, Package, SourceRange, Symbol, SymbolKind, UnifiedCodeModel};

fn empty_model() -> UnifiedCodeModel {
    UnifiedCodeModel {
        language: "go".to_string(),
        packages: vec![],
        symbols: vec![],
        calls: vec![],
        effects: vec![],
        entities: vec![],
        errors: vec![],
    }
}

fn error(file: &str, message: &str, line: u32) -> AnalysisError {
    AnalysisError { file: file.to_string(), message: message.to_string(), start_line: line, end_line: line }
}

fn node(id: &str, source: Option<(&str, u32, u32)>) -> VizNode {
    VizNode {
        id: id.to_string(),
        kind: NodeKind::Action,
        label: id.to_string(),
        layer: Layer::Flow,
        source: source.map(|(f, s, e)| SourceRef { file: f.to_string(), start_line: s, end_line: e }),
        element_type: None,
        symbol: None,
        summary: None,
        coverage_ids: vec![],
        group_id: None,
        tests: None,
        confidence: None,
        children: vec![],
        branches: vec![],
        data_in: vec![],
        data_out: vec![],
        effects: vec![],
        cross_refs: vec![],
    }
}

fn label_node(id: &str, start: u32) -> LabelNode {
    LabelNode {
        id: id.to_string(),
        kind: "statement".to_string(),
        source: Some(SourceRef { file: "main.go".to_string(), start_line: start, end_line: start }),
        coverage_ids: vec![id.to_string()],
        children: vec![],
    }
}

fn state(hash: &str, key: &str, report: &str, error: Option<&str>) -> FileState {
    FileState {
        hash: hash.to_string(),
        cache_key: key.to_string(),
        report_path: report.to_string(),
        dsl_path: String::new(),
        error: error.map(|e| e.to_string()),
    }
}

#[test]
fn compile_error_visualization_contains_diagnostic() {
    let error = AnalysisError {
        file: "internal/js/dom.go".to_string(),
        message: "InitDOM redeclared".to_string(),
        start_line: 118,
        end_line: 118,
    };
    let viz = compile_error_visualization("internal/js/dom.go", "package js", &vec![error.clone()]);

    assert_eq!(viz.nodes.len(), 1);
    assert_eq!(viz.nodes[0].kind, NodeKind::Error);
    assert_eq!(viz.nodes[0].label, "Ошибка компиляции");
    assert!(viz.nodes[0]
        .summary
        .as_deref()
        .is_some_and(|summary| summary.contains("InitDOM redeclared")));
    assert_eq!(
        format_analysis_error(&error),
        "internal/js/dom.go:118: InitDOM redeclared"
    );
}

#[test]
fn source_window_marks_processed_lines() {
    let node = LabelNode {
        id: "statement:main.go:2".to_string(),
        kind: "statement".to_string(),
        source: Some(SourceRef {
            file: "main.go".to_string(),
            start_line: 2,
            end_line: 2,
        }),
        coverage_ids: vec!["statement:main.go:2".to_string()],
        children: vec![],
    };
    let done = vec![node.id.clone()];
    let marked = source_window("first\nsecond\nthird", 1, 3, &done, &vec![node]);

    assert!(marked.contains("[СДЕЛАНО] 0002 | second"));
    assert!(marked.contains("[ДАЛЬШЕ] 0001 | first"));
}

#[test]
fn source_window_without_source_or_done_nodes() {
    assert_eq!(
        source_window("", 1, 3, &vec![], &vec![]),
        "(Исходный текст не приложен: используйте точные source-диапазоны.)"
    );
    assert_eq!(source_window("a\nb\nc", 2, 3, &vec![], &vec![]), "0002 | b\n0003 | c");
}

#[test]
fn numbered_source_pads_line_numbers() {
    assert_eq!(numbered_source("one\r\ntwo\nthree\n", 1, 2), "0001 | one\n0002 | two");
    assert_eq!(numbered_source("one", 5, 9), "");
    let src = SourceRef { file: "a.go".to_string(), start_line: 3, end_line: 3 };
    assert_eq!(source_for_node("a\nb\nc", Some(&src)), "0003 | c");
    assert_eq!(source_for_node("a\nb\nc", None), "");
}

#[test]
fn diagnostics_without_line_and_joined() {
    let errors = vec![error("a.go", "bad", 3), error("a.go", "worse", 0)];
    assert_eq!(format_analysis_error(&errors[1]), "a.go: worse");
    assert_eq!(diagnostics_message(&errors), "a.go:3: bad; a.go: worse");
    let mut model = empty_model();
    model.errors = vec![error("a.go", "bad", 3), error("b.go", "other", 1), error("a.go", "worse", 0)];
    let mine = errors_for_file(&model, "a.go");
    assert_eq!(mine.len(), 2);
    assert_eq!(mine[1].message, "worse");
}

#[test]
fn count_and_collect_over_the_tree() {
    let mut root = node("r", Some(("b.go", 1, 1)));
    root.children.push(node("x", Some(("a.go", 1, 2))));
    root.children.push(node("y", Some(("b.go", 3, 4))));
    root.children[1].children.push(node("z", None));
    let nodes = vec![root, node("w", Some(("a.go", 7, 7)))];
    assert_eq!(count_nodes(&nodes), 5);
    assert_eq!(collect_files(&nodes), vec!["a.go".to_string(), "b.go".to_string()]);
    let viz = Visualization { title: "t".to_string(), level: Level::File, nodes, edges: vec![] };
    let out = pipeline_output("r.html".to_string(), "r.dsl.json".to_string(), &viz, None);
    assert_eq!((out.nodes, out.edges), (5, 0));
}

#[test]
fn label_nodes_are_ordered_by_source() {
    let mut root = node("root", Some(("a.go", 1, 30)));
    root.children.push(node("late", Some(("a.go", 20, 21))));
    root.children.push(node("early", Some(("a.go", 5, 6))));
    root.children.push(node("none", None));
    let labels = label_nodes(&vec![root]);
    let ids: Vec<&str> = labels.iter().map(|l| l.id.as_str()).collect();
    assert_eq!(ids, vec!["none", "root", "early", "late"]);
    assert_eq!(labels[1].children, vec!["late".to_string(), "early".to_string(), "none".to_string()]);
    assert_eq!(labels[1].kind, "action");
}

#[test]
fn labeling_windows_follow_the_line_budget() {
    let nodes = vec![label_node("a", 1), label_node("b", 100), label_node("c", 128), label_node("d", 129)];
    assert_eq!(label_window(&nodes, 0), (3, 1, 128));
    assert_eq!(label_window(&nodes, 3), (4, 129, 256));
}

#[test]
fn labeling_loop_retries_then_moves_on() {
    let nodes = vec![label_node("a", 1), label_node("b", 2), label_node("c", 500)];
    let (mut progress, action) = start_labeling(&nodes);
    assert!(matches!(action, LabelAction::Ask));
    assert_eq!((progress.cursor, progress.end), (0, 2));
    let request = label_request(&nodes, &progress);
    assert_eq!(request.window_ids, "a\nb");
    assert_eq!(request.done_text, "нет");
    assert_eq!(request.user, "Опиши на русском каждый ID текущего окна. Верни ровно 2 записей и не пропускай строки.");
    match after_reply(&nodes, &mut progress, LabelReply::Rejected("missing b".to_string())) {
        LabelAction::Retry(note) => assert_eq!(note, "Ответ отклонён валидатором: missing b. Исправь только текущее окно и верни полный JSON."),
        _ => panic!("expected a retry"),
    }
    assert!(matches!(after_reply(&nodes, &mut progress, LabelReply::Applied), LabelAction::Ask));
    assert_eq!((progress.cursor, progress.end, progress.first_line), (2, 3, 500));
    assert_eq!(progress.done_ids, vec!["a".to_string(), "b".to_string()]);
    assert_eq!(label_request(&nodes, &progress).done_text, "a\nb");
    assert!(matches!(after_reply(&nodes, &mut progress, LabelReply::Applied), LabelAction::Finish));
    assert_eq!(progress.done_ids, vec!["a".to_string(), "b".to_string(), "c".to_string()]);
}

#[test]
fn labeling_gives_up_after_three_requests() {
    let nodes = vec![label_node("a", 7)];
    let (mut progress, _) = start_labeling(&nodes);
    assert!(matches!(after_reply(&nodes, &mut progress, LabelReply::Failed("timeout".to_string())), LabelAction::Retry(_)));
    assert!(matches!(after_reply(&nodes, &mut progress, LabelReply::Failed("timeout".to_string())), LabelAction::Retry(_)));
    match after_reply(&nodes, &mut progress, LabelReply::Failed("timeout".to_string())) {
        LabelAction::Fail(message) => assert_eq!(message, "strict labeling failed for lines 7-134: timeout"),
        _ => panic!("expected a failure"),
    }
    let (_, action) = start_labeling(&vec![]);
    assert!(matches!(action, LabelAction::Finish));
}

#[test]
fn update_paths_merge_packages_and_error_files() {
    let mut model = empty_model();
    model.packages = vec![
        Package { id: "p".to_string(), name: "p".to_string(), dir: ".".to_string(), files: vec!["b.go".to_string(), "a.go".to_string()] },
        Package { id: "q".to_string(), name: "q".to_string(), dir: ".".to_string(), files: vec!["a.go".to_string()] },
    ];
    model.errors = vec![error("c.go", "broken", 1), error("", "no file", 0)];
    assert_eq!(update_paths(&model), vec!["a.go".to_string(), "b.go".to_string(), "c.go".to_string()]);
}

#[test]
fn plan_entry_statuses() {
    let mut model = empty_model();
    model.errors = vec![error("bad.go", "broken", 4)];
    let mut states: Vec<(String, FileState)> = Vec::new();
    map_insert(&mut states, "ok.go".to_string(), state("h1", "k", "/r/ok.html", None));
    map_insert(&mut states, "old.go".to_string(), state("h0", "k", "/r/old.html", None));
    map_insert(&mut states, "failed.go".to_string(), state("h2", "k", "", Some("LLM down")));

    let ready = plan_entry(&model, &states, "k", "ok.go".to_string(), "h1".to_string(), true);
    assert_eq!(ready.status, "ready");
    assert_eq!(ready.report_path.as_deref(), Some("/r/ok.html"));

    let gone = plan_entry(&model, &states, "k", "ok.go".to_string(), "h1".to_string(), false);
    assert_eq!(gone.status, "pending");

    let changed = plan_entry(&model, &states, "k", "old.go".to_string(), "h9".to_string(), true);
    assert_eq!(changed.status, "pending");
    assert_eq!(changed.report_path, None);

    let other_settings = plan_entry(&model, &states, "k2", "ok.go".to_string(), "h1".to_string(), true);
    assert_eq!(other_settings.status, "pending");

    let failed = plan_entry(&model, &states, "k", "failed.go".to_string(), "h2".to_string(), true);
    assert_eq!(failed.status, "error");
    assert_eq!(failed.error.as_deref(), Some("LLM down"));

    let broken = plan_entry(&model, &states, "k", "bad.go".to_string(), "h3".to_string(), true);
    assert_eq!(broken.status, "error");
    assert_eq!(broken.error.as_deref(), Some("bad.go:4: broken"));
}

#[test]
fn update_then_plan_reads_back_ready() {
    let model = empty_model();
    let mut states: Vec<(String, FileState)> = Vec::new();
    map_insert(&mut states, "a.go".to_string(), state("old", "k", "", Some("failed before")));
    let out = PipelineOutput {
        report_path: "/p/.graphloom/report-file-1.html".to_string(),
        dsl_path: "/p/.graphloom/report-file-1.dsl.json".to_string(),
        nodes: 3,
        edges: 0,
        error: None,
    };
    let written = updated_file_state("new".to_string(), "k".to_string(), Ok(&out));
    map_insert(&mut states, "a.go".to_string(), written);
    assert_eq!(states.len(), 1);
    let entry = plan_entry(&model, &states, "k", "a.go".to_string(), "new".to_string(), true);
    assert_eq!(entry.status, "ready");
    assert_eq!(entry.report_path.as_deref(), Some("/p/.graphloom/report-file-1.html"));

    let failed = updated_file_state("new".to_string(), "k".to_string(), Err("LLM down".to_string()));
    assert_eq!(failed.report_path, "");
    assert_eq!(failed.error.as_deref(), Some("LLM down"));
}

#[test]
fn plan_sorts_and_counts() {
    let file = |path: &str, status: &str| UpdateFile {
        path: path.to_string(),
        hash: "h".to_string(),
        status: status.to_string(),
        report_path: None,
        error: None,
    };
    let plan = update_plan(vec![file("c.go", "pending"), file("a.go", "ready"), file("b.go", "error"), file("d.go", "pending")]);
    assert_eq!((plan.total, plan.cached, plan.pending), (4, 1, 2));
    let paths: Vec<&str> = plan.files.iter().map(|f| f.path.as_str()).collect();
    assert_eq!(paths, vec!["a.go", "b.go", "c.go", "d.go"]);
}

#[test]
fn update_refuses_changed_content() {
    assert!(check_unchanged("a.go", "h1", "h1").is_ok());
    assert_eq!(
        check_unchanged("a.go", "h2", "h1").unwrap_err(),
        "file 'a.go' changed while waiting for generation"
    );
    let states = vec![("a.go".to_string(), state("h", "k", "/r.html", None))];
    assert_eq!(cached_entry(&states, "a.go"), Ok(0));
    assert_eq!(cached_entry(&states, "b.go").unwrap_err(), "file 'b.go' has no cached report");
}

#[test]
fn cached_model_needs_new_analyzer_output() {
    let mut model = empty_model();
    assert!(!model_cache_usable(&model));
    model.entities.push(Entity {
        id: "e".to_string(),
        kind: "call".to_string(),
        name: "f".to_string(),
        label: String::new(),
        symbol: String::new(),
        callee: String::new(),
        condition: String::new(),
        source: SourceRange { file: "a.go".to_string(), start_line: 1, end_line: 1 },
        parent_id: String::new(),
        children: vec![],
        coverage: false,
    });
    assert!(!model_cache_usable(&model));
    model.entities[0].coverage = true;
    assert!(model_cache_usable(&model));
    let mut with_errors = empty_model();
    with_errors.errors.push(error("a.go", "x", 1));
    assert!(model_cache_usable(&with_errors));
}

#[test]
fn report_paths_share_a_base_name() {
    let (html, dsl) = report_paths("/p/.graphloom", "file", "20240101-120000");
    assert_eq!(html, "/p/.graphloom/report-file-20240101-120000.html");
    assert_eq!(dsl, "/p/.graphloom/report-file-20240101-120000.dsl.json");
}

#[test]
fn file_tree_keeps_sources_outside_skipped_dirs() {
    let comps = |parts: &[&str]| parts.iter().map(|p| p.to_string()).collect::<Vec<String>>();
    let main = classify_file("main.go", &comps(&["main.go"]), "main.go").unwrap();
    assert_eq!((main.path.as_str(), main.name.as_str(), main.language.as_str()), ("main.go", "main.go", "go"));
    let app = classify_file("nested\\app.ts", &comps(&["nested", "app.ts"]), "app.ts").unwrap();
    assert_eq!((app.path.as_str(), app.language.as_str()), ("nested/app.ts", "typescript"));
    assert_eq!(classify_file("ui/view.tsx", &comps(&["ui", "view.tsx"]), "view.tsx").unwrap().language, "tsx");
    assert!(classify_file("README.md", &comps(&["README.md"]), "README.md").is_none());
    assert!(classify_file(".graphloom/ignored.go", &comps(&[".graphloom", "ignored.go"]), "ignored.go").is_none());
    assert!(classify_file("node_modules/pkg/ignored.ts", &comps(&["node_modules", "pkg", "ignored.ts"]), "ignored.ts").is_none());
    assert!(classify_file(".go", &comps(&[".go"]), ".go").is_none());
    let info = |p: &str| FileInfo { path: p.to_string(), name: p.to_string(), language: "go".to_string() };
    let sorted = sort_file_infos(vec![info("b.go"), info("a/z.go"), info("a.go")]);
    let paths: Vec<&str> = sorted.iter().map(|f| f.path.as_str()).collect();
    assert_eq!(paths, vec!["a.go", "a/z.go", "b.go"]);
}

#[test]
fn symbol_picker_lists_functions_by_id() {
    let sym = |id: &str, kind: SymbolKind| Symbol {
        id: id.to_string(),
        kind,
        name: id.to_string(),
        package: "p".to_string(),
        source: SourceRange { file: "a.go".to_string(), start_line: 1, end_line: 2 },
        signature: String::new(),
        is_exported: true,
        is_async: false,
    };
    let mut model = empty_model();
    model.symbols = vec![sym("p.b", SymbolKind::Method), sym("p.T", SymbolKind::Type), sym("p.a", SymbolKind::Function)];
    let infos = symbol_infos(&model);
    let ids: Vec<&str> = infos.iter().map(|s| s.id.as_str()).collect();
    assert_eq!(ids, vec!["p.a", "p.b"]);
    assert_eq!(infos[0].file, "a.go");
}

#[test]
fn function_flows_find_their_symbol_file() {
    let sym = |id: &str, file: &str| Symbol {
        id: id.to_string(),
        kind: SymbolKind::Function,
        name: id.to_string(),
        package: "p".to_string(),
        source: SourceRange { file: file.to_string(), start_line: 1, end_line: 2 },
        signature: String::new(),
        is_exported: true,
        is_async: false,
    };
    let mut model = empty_model();
    model.symbols = vec![sym("p.F", "a.go"), sym("p.F", "b.go")];
    assert_eq!(symbol_source_file(&model, "p.F"), Ok("a.go".to_string()));
    assert_eq!(symbol_source_file(&model, "p.G"), Err("symbol 'p.G' not found in UCM".to_string()));
}
