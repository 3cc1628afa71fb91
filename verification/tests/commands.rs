use graphloom::commands::{has_extension, is_report_file, payload_of, sort_reports, ReportEntry};
use graphloom::pipeline::PipelineOutput;

fn report(name: &str) -> ReportEntry {
    ReportEntry { name: name.to_string(), path: format!("/p/.graphloom/{name}"), created_at: String::new() }
}

#[test]
fn only_html_files_are_reports() {
    assert!(is_report_file("report-file-20240101-120000.html"));
    assert!(!is_report_file("report-file-20240101-120000.dsl.json"));
    assert!(!is_report_file("state.json"));
    assert!(!is_report_file(".html"));
    assert!(!is_report_file("html"));
    assert!(has_extension("a.b.tsx", "tsx"));
}

#[test]
fn newest_reports_first() {
    let sorted = sort_reports(vec![
        report("report-file-20240101-120000.html"),
        report("report-project-20231231-090000.html"),
        report("report-file-20240102-080000.html"),
    ]);
    let names: Vec<&str> = sorted.iter().map(|r| r.name.as_str()).collect();
    assert_eq!(
        names,
        vec!["report-project-20231231-090000.html", "report-file-20240102-080000.html", "report-file-20240101-120000.html"]
    );
}

#[test]
fn payload_carries_report_and_size() {
    let out = PipelineOutput {
        report_path: "/p/r.html".to_string(),
        dsl_path: "/p/r.dsl.json".to_string(),
        nodes: 7,
        edges: 2,
        error: Some("x".to_string()),
    };
    let p = payload_of(&out);
    assert_eq!((p.report_path.as_str(), p.nodes, p.edges), ("/p/r.html", 7, 2));
}
