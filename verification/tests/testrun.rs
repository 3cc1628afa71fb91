use graphloom::testrun::{command_for, detect, run_result, TestKind};

#[test]
fn package_json_scripts_come_first() {
    let pkg = r#"{"name":"web","scripts":{"test":"vitest run","test:e2e":"playwright test","lint":"eslint ."}}"#;
    let c = detect(Some(pkg), true, true);
    assert_eq!(c.unit.as_deref(), Some("pnpm run test"));
    assert_eq!(c.integration.as_deref(), Some("cargo test --test '*'"));
    assert_eq!(c.e2e.as_deref(), Some("pnpm run test:e2e"));
}

#[test]
fn unit_script_preferred_over_test_and_non_strings_ignored() {
    let pkg = r#"{"scripts":{"test":"jest","test:unit":"vitest","test:integration":42,"e2e":"cypress"}}"#;
    let c = detect(Some(pkg), false, false);
    assert_eq!(c.unit.as_deref(), Some("pnpm run test:unit"));
    assert_eq!(c.integration, None);
    assert_eq!(c.e2e.as_deref(), Some("pnpm run e2e"));
}

#[test]
fn go_and_cargo_fallbacks() {
    let go = detect(None, false, true);
    assert_eq!(go.unit.as_deref(), Some("go test ./..."));
    assert_eq!(go.integration.as_deref(), Some("go test -tags=integration ./..."));
    assert_eq!(go.e2e, None);
    let cargo = detect(Some("not json"), true, true);
    assert_eq!(cargo.unit.as_deref(), Some("cargo test"));
    assert_eq!(cargo.integration.as_deref(), Some("cargo test --test '*'"));
    let nothing = detect(Some("{}"), false, false);
    assert_eq!((nothing.unit, nothing.integration, nothing.e2e), (None, None, None));
}

#[test]
fn command_for_each_kind() {
    let c = detect(None, false, true);
    assert_eq!(command_for(detect(None, false, true), TestKind::Unit).as_deref(), Some("go test ./..."));
    assert_eq!(command_for(c, TestKind::E2e), None);
    let r = run_result(true, "ok\n".to_string(), "warn\n", "go test ./...".to_string());
    assert!(r.success);
    assert_eq!(r.output, "ok\nwarn\n");
    assert_eq!(r.command, "go test ./...");
}
