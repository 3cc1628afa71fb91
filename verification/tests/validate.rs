use graphloom::dsl::{Branch, EdgeStatus, Layer, Level, NodeKind, SourceRef, Visualization, VizEdge, VizNode};
use graphloom::settings::ElementType;
use graphloom::ucm::{Call, SourceRange, Symbol, SymbolKind, UnifiedCodeModel};
use graphloom::validate::{validate, validation_fits};

/// A schema that accepts every document.
const OPEN_SCHEMA: &str = "{}";

/// The part of the DSL schema that the schema test needs: node labels are non-empty strings.
const LABEL_SCHEMA: &str = r#"{
  "type": "object",
  "properties": {
    "nodes": {
      "type": "array",
      "items": {
        "type": "object",
        "required": ["id", "label"],
        "properties": { "label": { "type": "string", "minLength": 1 } }
      }
    }
  }
}"#;

fn palette() -> Vec<ElementType> {
    vec![ElementType {
        kind: "service".to_string(),
        label: "Сервис".to_string(),
        color: "#3b82f6".to_string(),
        icon: "Settings2".to_string(),
        description: String::new(),
    }]
}

fn ucm() -> UnifiedCodeModel {
    UnifiedCodeModel {
        language: "go".to_string(),
        packages: vec![],
        symbols: vec![
            Symbol {
                id: "app/main.Run".to_string(),
                kind: SymbolKind::Function,
                name: "Run".to_string(),
                package: "app/main".to_string(),
                source: SourceRange { file: "main.go".to_string(), start_line: 10, end_line: 20 },
                signature: "func()".to_string(),
                is_exported: true,
                is_async: false,
            },
            Symbol {
                id: "app/db.Save".to_string(),
                kind: SymbolKind::Function,
                name: "Save".to_string(),
                package: "app/db".to_string(),
                source: SourceRange { file: "db/save.go".to_string(), start_line: 5, end_line: 12 },
                signature: "func()".to_string(),
                is_exported: true,
                is_async: false,
            },
        ],
        calls: vec![],
        effects: vec![],
        entities: vec![],
        errors: vec![],
    }
}

fn node(id: &str) -> VizNode {
    VizNode {
        id: id.to_string(),
        kind: NodeKind::Group,
        label: id.to_string(),
        layer: Layer::Calls,
        source: None,
        element_type: None,
        symbol: None,
        summary: None,
        coverage_ids: vec![],
        group_id: None,
        tests: None,
        confidence: None,
        children: vec![],
        branches: vec![],
        data_in: vec![],
        data_out: vec![],
        effects: vec![],
        cross_refs: vec![],
    }
}

fn viz(nodes: Vec<VizNode>, edges: Vec<VizEdge>) -> Visualization {
    Visualization { title: "test".to_string(), level: Level::Project, nodes, edges }
}

fn edge(from: &str, to: &str, status: EdgeStatus) -> VizEdge {
    VizEdge { from: from.to_string(), to: to.to_string(), label: None, status: Some(status) }
}

fn check(v: &mut Visualization, model: &UnifiedCodeModel) -> Result<(), Vec<String>> {
    assert!(validation_fits(v, model));
    validate(v, model, &palette(), OPEN_SCHEMA, "{}")
}

#[test]
fn accepts_valid_visualization() {
    let mut v = viz(vec![node("a"), node("b")], vec![edge("a", "b", EdgeStatus::Inferred)]);
    assert!(check(&mut v, &ucm()).is_ok());
}

#[test]
fn rejects_unknown_edge_target() {
    let mut v = viz(vec![node("a")], vec![edge("a", "ghost", EdgeStatus::Inferred)]);
    let err = check(&mut v, &ucm()).unwrap_err();
    assert!(err.iter().any(|e| e.contains("ghost")));
}

#[test]
fn rejects_unknown_source_file() {
    let mut n = node("a");
    n.source = Some(SourceRef { file: "nope.go".to_string(), start_line: 1, end_line: 2 });
    let mut v = viz(vec![n], vec![]);
    let err = check(&mut v, &ucm()).unwrap_err();
    assert!(err.iter().any(|e| e.contains("unknown file")));
}

#[test]
fn rejects_unknown_symbol() {
    let mut n = node("a");
    n.symbol = Some("fake.Symbol".to_string());
    let mut v = viz(vec![n], vec![]);
    let err = check(&mut v, &ucm()).unwrap_err();
    assert!(err.iter().any(|e| e.contains("unknown symbol")));
}

#[test]
fn rejects_unknown_element_type() {
    let mut n = node("a");
    n.element_type = Some("spaceship".to_string());
    let mut v = viz(vec![n], vec![]);
    let err = check(&mut v, &ucm()).unwrap_err();
    assert!(err.iter().any(|e| e.contains("spaceship")));
}

#[test]
fn requires_source_on_function_level() {
    let mut v = viz(vec![node("a")], vec![]);
    v.level = Level::Function;
    let err = check(&mut v, &ucm()).unwrap_err();
    assert!(err.iter().any(|e| e.contains("missing source")));
}

#[test]
fn downgrades_unbacked_verified_edge() {
    let mut a = node("a");
    a.symbol = Some("app/main.Run".to_string());
    let mut b = node("b");
    b.symbol = Some("app/db.Save".to_string());
    let mut v = viz(vec![a, b], vec![edge("a", "b", EdgeStatus::Verified)]);
    check(&mut v, &ucm()).unwrap();
    assert_eq!(v.edges[0].status, Some(EdgeStatus::Inferred));
}

#[test]
fn keeps_backed_verified_edge() {
    let mut model = ucm();
    model.calls.push(Call {
        from: "app/main.Run".to_string(),
        to: "app/db.Save".to_string(),
        source: SourceRange { file: "main.go".to_string(), start_line: 15, end_line: 15 },
    });
    let mut a = node("a");
    a.symbol = Some("app/main.Run".to_string());
    let mut b = node("b");
    b.symbol = Some("app/db.Save".to_string());
    let mut v = viz(vec![a, b], vec![edge("a", "b", EdgeStatus::Verified)]);
    check(&mut v, &model).unwrap();
    assert_eq!(v.edges[0].status, Some(EdgeStatus::Verified));
}

#[test]
fn rejects_schema_violation() {
    let mut bad = node("a");
    bad.label = String::new();
    let mut v = viz(vec![bad], vec![]);
    let instance = r#"{"title": "test", "level": "project", "nodes": [{"id": "a", "label": ""}], "edges": []}"#;
    let err = validate(&mut v, &ucm(), &palette(), LABEL_SCHEMA, instance).unwrap_err();
    assert!(err.iter().any(|e| e.starts_with("schema:")));
}

#[test]
fn schema_errors_are_reported_alone() {
    let mut bad = node("a");
    bad.label = String::new();
    bad.symbol = Some("fake.Symbol".to_string());
    let mut v = viz(vec![bad], vec![]);
    let instance = r#"{"nodes": [{"id": "a", "label": ""}]}"#;
    let err = validate(&mut v, &ucm(), &palette(), LABEL_SCHEMA, instance).unwrap_err();
    assert!(!err.is_empty());
    assert!(err.iter().all(|e| e.starts_with("schema:")));
    assert_eq!(v.nodes[0].symbol.as_deref(), Some("fake.Symbol"));
}

#[test]
fn broken_schema_is_an_internal_error() {
    let mut v = viz(vec![node("a")], vec![]);
    let err = validate(&mut v, &ucm(), &palette(), "not json", "{}").unwrap_err();
    assert_eq!(err, vec!["internal: broken DSL schema".to_string()]);
    let err = validate(&mut v, &ucm(), &palette(), OPEN_SCHEMA, "not json").unwrap_err();
    assert_eq!(err, vec!["internal: cannot serialize visualization".to_string()]);
}

#[test]
fn snaps_source_onto_symbol_and_into_file() {
    let mut n = node("a");
    n.symbol = Some("app/main.Run".to_string());
    n.source = Some(SourceRef { file: "main.go".to_string(), start_line: 1, end_line: 400 });
    let mut v = viz(vec![n], vec![]);
    check(&mut v, &ucm()).unwrap();
    let src = v.nodes[0].source.as_ref().unwrap();
    assert_eq!((src.start_line, src.end_line), (10, 20));
}

#[test]
fn clamps_reversed_range_within_file() {
    let mut n = node("a");
    n.source = Some(SourceRef { file: "main.go".to_string(), start_line: 90, end_line: 0 });
    let mut v = viz(vec![n], vec![]);
    check(&mut v, &ucm()).unwrap();
    let src = v.nodes[0].source.as_ref().unwrap();
    assert_eq!((src.start_line, src.end_line), (1, 20));
}

#[test]
fn rejects_branch_to_unknown_node() {
    let mut n = node("a");
    n.branches.push(Branch { condition: "ok".to_string(), target: "nowhere".to_string() });
    let mut v = viz(vec![n], vec![]);
    let err = check(&mut v, &ucm()).unwrap_err();
    assert_eq!(err, vec!["node 'a' branch targets unknown node 'nowhere'".to_string()]);
}

#[test]
fn center_overflow_does_not_fit() {
    let mut model = ucm();
    model.calls.push(Call {
        from: "app/main.Run".to_string(),
        to: "app/db.Save".to_string(),
        source: SourceRange { file: "main.go".to_string(), start_line: 15, end_line: 15 },
    });
    let mut n = node("a");
    n.kind = NodeKind::Call;
    n.source = Some(SourceRef { file: "main.go".to_string(), start_line: u32::MAX, end_line: u32::MAX });
    let v = viz(vec![n], vec![]);
    assert!(!validation_fits(&v, &model));
}

/// The DSL's structure as its documentation describes it: a title, a level,
/// nodes with an id, a kind, a non-empty label and a layer from their
/// enumerations, optional sources with a file and two line numbers, and edges
/// between two ids with an optional status.
const DSL_SCHEMA: &str = r##"{
  "type": "object",
  "required": ["title", "level", "nodes", "edges"],
  "properties": {
    "title": { "type": "string" },
    "level": { "enum": ["project", "file", "function"] },
    "nodes": { "type": "array", "items": { "$ref": "#/$defs/node" } },
    "edges": {
      "type": "array",
      "items": {
        "type": "object",
        "required": ["from", "to"],
        "properties": {
          "from": { "type": "string" },
          "to": { "type": "string" },
          "label": { "type": ["string", "null"] },
          "status": { "enum": ["verified", "inferred", null] }
        }
      }
    }
  },
  "$defs": {
    "node": {
      "type": "object",
      "required": ["id", "kind", "label", "layer"],
      "properties": {
        "id": { "type": "string", "minLength": 1 },
        "kind": { "enum": ["action", "decision", "call", "input", "output", "state", "storage", "external", "loop", "error", "async", "group"] },
        "label": { "type": "string", "minLength": 1 },
        "layer": { "enum": ["flow", "calls", "data", "state", "effects"] },
        "source": {
          "type": ["object", "null"],
          "required": ["file", "start_line", "end_line"],
          "properties": {
            "file": { "type": "string" },
            "start_line": { "type": "integer", "minimum": 0 },
            "end_line": { "type": "integer", "minimum": 0 }
          }
        },
        "symbol": { "type": ["string", "null"] },
        "element_type": { "type": ["string", "null"] },
        "children": { "type": "array", "items": { "$ref": "#/$defs/node" } }
      }
    }
  }
}"##;

fn name_of<T: std::fmt::Debug>(x: T) -> serde_json::Value {
    serde_json::Value::String(format!("{x:?}").to_lowercase())
}

fn opt_text(x: &Option<String>) -> serde_json::Value {
    match x {
        Some(s) => serde_json::Value::String(s.clone()),
        None => serde_json::Value::Null,
    }
}

fn node_json(n: &VizNode) -> serde_json::Value {
    let mut m = serde_json::Map::new();
    m.insert("id".to_string(), serde_json::Value::String(n.id.clone()));
    m.insert("kind".to_string(), name_of(n.kind));
    m.insert("label".to_string(), serde_json::Value::String(n.label.clone()));
    m.insert("layer".to_string(), name_of(n.layer));
    let source = match &n.source {
        Some(s) => {
            let mut src = serde_json::Map::new();
            src.insert("file".to_string(), serde_json::Value::String(s.file.clone()));
            src.insert("start_line".to_string(), serde_json::Value::from(s.start_line));
            src.insert("end_line".to_string(), serde_json::Value::from(s.end_line));
            serde_json::Value::Object(src)
        }
        None => serde_json::Value::Null,
    };
    m.insert("source".to_string(), source);
    m.insert("symbol".to_string(), opt_text(&n.symbol));
    m.insert("element_type".to_string(), opt_text(&n.element_type));
    m.insert("summary".to_string(), opt_text(&n.summary));
    m.insert("children".to_string(), serde_json::Value::Array(n.children.iter().map(node_json).collect()));
    serde_json::Value::Object(m)
}

/// The diagram written as JSON, as the application serializes it.
fn viz_json(v: &Visualization) -> String {
    let mut m = serde_json::Map::new();
    m.insert("title".to_string(), serde_json::Value::String(v.title.clone()));
    m.insert("level".to_string(), name_of(v.level));
    m.insert("nodes".to_string(), serde_json::Value::Array(v.nodes.iter().map(node_json).collect()));
    let edges = v
        .edges
        .iter()
        .map(|e| {
            let mut em = serde_json::Map::new();
            em.insert("from".to_string(), serde_json::Value::String(e.from.clone()));
            em.insert("to".to_string(), serde_json::Value::String(e.to.clone()));
            em.insert("label".to_string(), opt_text(&e.label));
            em.insert("status".to_string(), e.status.map(name_of).unwrap_or(serde_json::Value::Null));
            serde_json::Value::Object(em)
        })
        .collect();
    m.insert("edges".to_string(), serde_json::Value::Array(edges));
    serde_json::Value::Object(m).to_string()
}

#[test]
fn serialized_diagram_passes_the_dsl_schema() {
    let mut a = node("a");
    a.symbol = Some("app/main.Run".to_string());
    a.source = Some(SourceRef { file: "main.go".to_string(), start_line: 10, end_line: 20 });
    a.children.push(node("b"));
    let mut v = viz(vec![a], vec![edge("a", "b", EdgeStatus::Verified)]);
    let instance = viz_json(&v);
    assert!(validate(&mut v, &ucm(), &palette(), DSL_SCHEMA, &instance).is_ok());
    assert_eq!(v.edges[0].status, Some(EdgeStatus::Inferred));
}

#[test]
fn serialized_diagram_with_empty_label_fails_the_dsl_schema() {
    let mut bad = node("a");
    bad.children.push(node("b"));
    bad.children[0].label = String::new();
    let mut v = viz(vec![bad], vec![]);
    let instance = viz_json(&v);
    let err = validate(&mut v, &ucm(), &palette(), DSL_SCHEMA, &instance).unwrap_err();
    assert!(!err.is_empty());
    assert!(err.iter().all(|e| e.starts_with("schema:")));
}
