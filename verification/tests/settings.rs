use graphloom::settings::{default_palette, endpoint_from, migrate_icon, migrate_palette, settings_with, ElementType};

fn element(icon: &str) -> ElementType {
    ElementType {
        kind: "service".to_string(),
        label: "Сервис".to_string(),
        color: "#3b82f6".to_string(),
        icon: icon.to_string(),
        description: "d".to_string(),
    }
}

#[test]
fn default_palette_has_five_types() {
    let p = default_palette();
    let kinds: Vec<&str> = p.iter().map(|e| e.kind.as_str()).collect();
    assert_eq!(kinds, vec!["service", "database", "module", "library", "entrypoint"]);
    assert_eq!(p[0].label, "Сервис");
    assert_eq!(p[0].color, "#3b82f6");
    assert_eq!(p[4].icon, "Rocket");
    assert_eq!(p[4].description, "main / CLI / server entrypoint");
}

#[test]
fn endpoint_defaults_to_local_server() {
    let e = endpoint_from(None, None, None);
    assert_eq!(e.base_url, "http://localhost:8080/v1");
    assert_eq!(e.model, "");
    assert_eq!(e.api_key, "");
    let e = endpoint_from(Some("https://api.example/v1".to_string()), Some("m".to_string()), Some("SECRET-REDACTED".to_string()));
    assert_eq!(e.base_url, "https://api.example/v1");
    assert_eq!(e.model, "m");
    let s = settings_with(e);
    assert_eq!(s.palette.len(), 5);
    assert_eq!(s.endpoint.model, "m");
}

#[test]
fn emoji_icons_become_names() {
    assert_eq!(migrate_icon("⚙️").as_deref(), Some("Settings2"));
    assert_eq!(migrate_icon("🗄️").as_deref(), Some("Database"));
    assert_eq!(migrate_icon("📦").as_deref(), Some("Box"));
    assert_eq!(migrate_icon("📚").as_deref(), Some("Library"));
    assert_eq!(migrate_icon("🚀").as_deref(), Some("Rocket"));
    assert_eq!(migrate_icon("Box"), None);
}

#[test]
fn migrating_twice_changes_nothing_more() {
    let mut palette = vec![element("📦"), element("Custom"), element("🚀")];
    assert!(migrate_palette(&mut palette));
    let icons: Vec<String> = palette.iter().map(|e| e.icon.clone()).collect();
    assert_eq!(icons, vec!["Box", "Custom", "Rocket"]);
    assert!(!migrate_palette(&mut palette));
    let again: Vec<String> = palette.iter().map(|e| e.icon.clone()).collect();
    assert_eq!(again, icons);
    assert_eq!(palette[0].label, "Сервис");
}
