use graphloom::analyzer::{analyzers_for, combine_models, go_analyzer_command, merge, ts_analyzer_command};
use graphloom::ucm::{AnalysisError, Package, UnifiedCodeModel};

fn model(language: &str, package: &str, error: Option<&str>) -> UnifiedCodeModel {
    UnifiedCodeModel {
        language: language.to_string(),
        packages: vec![Package { id: package.to_string(), name: package.to_string(), dir: ".".to_string(), files: vec![] }],
        symbols: vec![],
        calls: vec![],
        effects: vec![],
        entities: vec![],
        errors: error
            .map(|f| vec![AnalysisError { file: f.to_string(), message: "m".to_string(), start_line: 1, end_line: 1 }])
            .unwrap_or_default(),
    }
}

#[test]
fn analyzers_follow_project_files() {
    assert_eq!(analyzers_for(true, false, false), (true, false));
    assert_eq!(analyzers_for(false, false, true), (false, true));
    assert_eq!(analyzers_for(true, true, false), (true, true));
}

#[test]
fn go_analyzer_uses_binary_or_go_run() {
    let built = go_analyzer_command("/opt/analyzers", "/work/app", true);
    assert_eq!(built.program, "/opt/analyzers/go/graphloom-analyze");
    assert_eq!(built.args, vec!["-dir=/work/app".to_string()]);
    assert_eq!(built.cwd, "/opt/analyzers/go");
    let fallback = go_analyzer_command("/opt/analyzers", "/work/app", false);
    assert_eq!(fallback.program, "go");
    assert_eq!(fallback.args, vec!["run".to_string(), ".".to_string(), "-dir=/work/app".to_string()]);
}

#[test]
fn ts_analyzer_runs_node_script() {
    let c = ts_analyzer_command("/opt/analyzers", "/work/web");
    assert_eq!(c.program, "node");
    assert_eq!(c.args, vec!["/opt/analyzers/ts/dist/analyze.js".to_string(), "/work/web".to_string()]);
    assert_eq!(c.cwd, "/opt/analyzers/ts");
}

#[test]
fn models_merge_in_order() {
    let m = merge(vec![model("go", "a", Some("x.go")), model("typescript", "b", None), model("go", "c", Some("y.ts"))]);
    assert_eq!(m.language, "mixed");
    let ids: Vec<&str> = m.packages.iter().map(|p| p.id.as_str()).collect();
    assert_eq!(ids, vec!["a", "b", "c"]);
    assert_eq!(m.errors.len(), 2);
    assert_eq!(m.errors[1].file, "y.ts");
}

#[test]
fn combining_needs_at_least_one_model() {
    assert_eq!(
        combine_models(vec![]).err().as_deref(),
        Some("no Go or TypeScript project detected (need go.mod or package.json)")
    );
    let one = combine_models(vec![model("go", "a", None)]).ok().unwrap();
    assert_eq!(one.language, "go");
    let two = combine_models(vec![model("go", "a", None), model("typescript", "b", None)]).ok().unwrap();
    assert_eq!(two.language, "mixed");
    assert_eq!(two.packages.len(), 2);
}
