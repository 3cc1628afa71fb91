use graphloom::settings::{settings_with, ElementType, Endpoint, Settings};
use graphloom::state::{
    cache_key, cache_payload_text, fingerprint, fingerprint_candidate, function_cache_key, function_report_hit,
    hash_bytes, map_index, map_insert, project_cache_key, project_report_hit, retain_files, sort_source_paths,
    state_path, to_hex, FileState, FunctionState, ProjectReportState, ProjectState, SourcePath,
};

fn settings() -> Settings {
    settings_with(Endpoint {
        base_url: "http://localhost:8080/v1".to_string(),
        model: "qwen".to_string(),
        api_key: "SECRET-REDACTED".to_string(),
    })
}

fn file_state(hash: &str) -> FileState {
    FileState {
        hash: hash.to_string(),
        cache_key: "k".to_string(),
        report_path: String::new(),
        dsl_path: String::new(),
        error: None,
    }
}

#[test]
fn hash_bytes_is_sha256_in_hex() {
    assert_eq!(hash_bytes(b"abc"), "ba7816bf8f01cfea414140de5dae2223b00361a396177a9cb410ff61f20015ad");
    assert_eq!(hash_bytes(b""), "e3b0c44298fc1c149afbf4c8996fb92427ae41e4649b934ca495991b7852b855");
    assert_eq!(to_hex(&[0, 15, 16, 255]), "000f10ff");
}

#[test]
fn cache_payload_is_the_json_that_serde_writes() {
    let s = settings();
    let mut palette = Vec::new();
    for e in &s.palette {
        let mut m = serde_json::Map::new();
        m.insert("type".to_string(), serde_json::Value::String(e.kind.clone()));
        m.insert("label".to_string(), serde_json::Value::String(e.label.clone()));
        m.insert("color".to_string(), serde_json::Value::String(e.color.clone()));
        m.insert("icon".to_string(), serde_json::Value::String(e.icon.clone()));
        m.insert("description".to_string(), serde_json::Value::String(e.description.clone()));
        palette.push(serde_json::Value::Object(m));
    }
    let mut payload = serde_json::Map::new();
    payload.insert("prompt_version".to_string(), serde_json::Value::String("file-map-v2".to_string()));
    payload.insert("model".to_string(), serde_json::Value::String(s.endpoint.model.clone()));
    payload.insert("base_url".to_string(), serde_json::Value::String(s.endpoint.base_url.clone()));
    payload.insert("palette".to_string(), serde_json::Value::Array(palette));
    let expected = serde_json::Value::Object(payload).to_string();
    assert_eq!(cache_payload_text(&s), expected);
    assert_eq!(cache_key(&s), hash_bytes(expected.as_bytes()));
}

#[test]
fn cache_payload_escapes_like_serde() {
    let mut s = settings();
    s.palette = vec![ElementType {
        kind: "q\"uote".to_string(),
        label: "tab\there\nnew\\line".to_string(),
        color: "\u{1}".to_string(),
        icon: "Box".to_string(),
        description: "</script>".to_string(),
    }];
    let e = &s.palette[0];
    let mut m = serde_json::Map::new();
    m.insert("type".to_string(), serde_json::Value::String(e.kind.clone()));
    m.insert("label".to_string(), serde_json::Value::String(e.label.clone()));
    m.insert("color".to_string(), serde_json::Value::String(e.color.clone()));
    m.insert("icon".to_string(), serde_json::Value::String(e.icon.clone()));
    m.insert("description".to_string(), serde_json::Value::String(e.description.clone()));
    let mut payload = serde_json::Map::new();
    payload.insert("prompt_version".to_string(), serde_json::Value::String("file-map-v2".to_string()));
    payload.insert("model".to_string(), serde_json::Value::String(s.endpoint.model.clone()));
    payload.insert("base_url".to_string(), serde_json::Value::String(s.endpoint.base_url.clone()));
    payload.insert("palette".to_string(), serde_json::Value::Array(vec![serde_json::Value::Object(m)]));
    assert_eq!(cache_payload_text(&s), serde_json::Value::Object(payload).to_string());
}

#[test]
fn cache_key_changes_with_model() {
    let a = settings();
    let mut b = settings();
    b.endpoint.model = "other".to_string();
    assert_eq!(cache_key(&a), cache_key(&settings()));
    assert_ne!(cache_key(&a), cache_key(&b));
}

#[test]
fn derived_cache_keys() {
    let s = settings();
    let key = cache_key(&s);
    assert_eq!(project_cache_key(&s, "{}"), format!("{}-{}", key, hash_bytes(b"{}")));
    assert_eq!(function_cache_key(&s, "abc", "p.F"), format!("{}-abc-p.F", key));
}

#[test]
fn map_insert_reads_back_and_keeps_order() {
    let mut entries: Vec<(String, FileState)> = Vec::new();
    map_insert(&mut entries, "b.go".to_string(), file_state("1"));
    map_insert(&mut entries, "a.go".to_string(), file_state("2"));
    map_insert(&mut entries, "c.go".to_string(), file_state("3"));
    map_insert(&mut entries, "b.go".to_string(), file_state("4"));
    let keys: Vec<&str> = entries.iter().map(|e| e.0.as_str()).collect();
    assert_eq!(keys, vec!["a.go", "b.go", "c.go"]);
    let i = map_index(&entries, "b.go").unwrap();
    assert_eq!(entries[i].1.hash, "4");
    assert_eq!(entries[map_index(&entries, "a.go").unwrap()].1.hash, "2");
    assert_eq!(map_index(&entries, "d.go"), None);
}

#[test]
fn retain_forgets_files_outside_the_project() {
    let mut state = ProjectState::default();
    map_insert(&mut state.files, "a.go".to_string(), file_state("1"));
    map_insert(&mut state.files, "gone.go".to_string(), file_state("2"));
    map_insert(&mut state.files, "c.go".to_string(), file_state("3"));
    retain_files(&mut state, &vec!["c.go".to_string(), "a.go".to_string(), "new.go".to_string()]);
    let keys: Vec<&str> = state.files.iter().map(|e| e.0.as_str()).collect();
    assert_eq!(keys, vec!["a.go", "c.go"]);
}

#[test]
fn cached_reports_need_the_same_key() {
    let mut state = ProjectState::default();
    assert_eq!(project_report_hit(&state, "k"), None);
    state.project = Some(ProjectReportState {
        cache_key: "k".to_string(),
        report_path: "/r.html".to_string(),
        dsl_path: "/r.dsl.json".to_string(),
    });
    assert_eq!(project_report_hit(&state, "k"), Some(("/r.html".to_string(), "/r.dsl.json".to_string())));
    assert_eq!(project_report_hit(&state, "other"), None);
    map_insert(
        &mut state.functions,
        "p.F".to_string(),
        FunctionState { cache_key: "fk".to_string(), report_path: "/f.html".to_string(), dsl_path: "/f.dsl.json".to_string() },
    );
    assert_eq!(function_report_hit(&state, "p.F", "fk"), Some(("/f.html".to_string(), "/f.dsl.json".to_string())));
    assert_eq!(function_report_hit(&state, "p.F", "stale"), None);
    assert_eq!(function_report_hit(&state, "p.G", "fk"), None);
}

#[test]
fn state_lives_in_the_project() {
    assert_eq!(state_path("/work/app"), "/work/app/.graphloom/state.json");
    assert_eq!(state_path("/work/app/"), "/work/app/.graphloom/state.json");
}

#[test]
fn fingerprint_hashes_paths_and_contents_in_order() {
    let files = vec![("a.go".to_string(), b"package a".to_vec()), ("b/c.ts".to_string(), b"x".to_vec())];
    let mut bytes = Vec::new();
    bytes.extend_from_slice(b"a.go");
    bytes.push(0);
    bytes.extend_from_slice(b"package a");
    bytes.push(0);
    bytes.extend_from_slice(b"b/c.ts");
    bytes.push(0);
    bytes.extend_from_slice(b"x");
    bytes.push(0);
    assert_eq!(fingerprint(&files), hash_bytes(&bytes));
    assert_eq!(fingerprint(&vec![]), hash_bytes(b""));
}

#[test]
fn fingerprint_covers_sources_outside_the_state_dir() {
    let comps = |parts: &[&str]| parts.iter().map(|p| p.to_string()).collect::<Vec<String>>();
    assert!(fingerprint_candidate(&comps(&["main.go"]), "main.go"));
    assert!(fingerprint_candidate(&comps(&["web", "app.tsx"]), "app.tsx"));
    assert!(!fingerprint_candidate(&comps(&[".graphloom", "x.go"]), "x.go"));
    assert!(!fingerprint_candidate(&comps(&["README.md"]), "README.md"));
}

#[test]
fn fingerprint_files_sort_by_path_components() {
    let path = |p: &str| SourcePath { path: p.to_string(), components: p.split('/').map(|c| c.to_string()).collect() };
    let sorted = sort_source_paths(vec![path("a-b.go"), path("a/b.go"), path("a.go")]);
    let order: Vec<&str> = sorted.iter().map(|p| p.path.as_str()).collect();
    assert_eq!(order, vec!["a/b.go", "a-b.go", "a.go"]);
    let mut std_order = vec![std::path::PathBuf::from("a-b.go"), std::path::PathBuf::from("a/b.go"), std::path::PathBuf::from("a.go")];
    std_order.sort();
    let std_names: Vec<String> = std_order.iter().map(|p| p.to_string_lossy().into_owned()).collect();
    assert_eq!(std_names, vec!["a/b.go".to_string(), "a-b.go".to_string(), "a.go".to_string()]);
}
