use graphloom::render::{embed_json, render_html};

/// A small report page with the three places the data goes.
const TEMPLATE: &str = "<style>#layers { display: flex }\n.elabel-bg { fill: white }</style>\n<script>const DATA = __DATA__; const PALETTE = __PALETTE__; const SOURCES = __SOURCES__; function treeLayout() {}</script>";

#[test]
fn render_is_deterministic() {
    let data = r#"{"title":"Sample","level":"project","nodes":[{"id":"a","label":"Node A"}],"edges":[{"from":"a","to":"a"}]}"#;
    let first = render_html(TEMPLATE, data, "[]", "{}");
    let second = render_html(TEMPLATE, data, "[]", "{}");
    assert_eq!(first, second);
    assert!(first.contains("#layers { display: flex"));
    assert!(first.contains(".elabel-bg"));
    assert!(first.contains("treeLayout") || first.contains("layeredLayout"));
}

#[test]
fn render_embeds_data_without_script_breakout() {
    let data = r#"{"nodes":[{"id":"a","label":"x</script><script>alert(1)</script>"}]}"#;
    let html = render_html(TEMPLATE, data, "[]", "{}");
    assert!(!html.contains("x</script><script>alert"));
    assert!(html.contains("alert"));
}

#[test]
fn embedded_json_escapes_every_closing_tag() {
    assert_eq!(embed_json("a</b></c"), "a<\\/b><\\/c");
    assert_eq!(embed_json("<<//"), "<<\\//");
    assert!(!embed_json("</</</").contains("</"));
}

#[test]
fn report_places_each_part() {
    let html = render_html("D=__DATA__;P=__PALETTE__;S=__SOURCES__", "{\"d\":1}", "[\"p\"]", "{\"main.go\":\"</script>\"}");
    assert_eq!(html, "D={\"d\":1};P=[\"p\"];S={\"main.go\":\"<\\/script>\"}");
}
