use bsol::{
    apply_migration, load_profile, migrate_document, parse_bsol_document, plan_migration,
    BsolError, MigrationPlan, MigrationRewrite,
};

const V1_MANIFEST: &str = r#"demo {
  name = "demo"
  version = "0.1.0"
  root = "."
}
"#;

fn plan(rewrites: Vec<MigrationRewrite>) -> MigrationPlan {
    MigrationPlan { from_profile: "a".to_string(), to_profile: "b".to_string(), rewrites }
}

#[test]
fn plan_picks_the_version_heuristic_route() {
    let doc = parse_bsol_document(V1_MANIFEST).expect("parse");
    let target = load_profile("project.v2").expect("profile");
    let p = plan_migration(&doc, V1_MANIFEST, &target).expect("plan").expect("a route");
    assert_eq!(p.from_profile, "project.v1");
    assert_eq!(p.to_profile, "project.v2");
    assert_eq!(
        p.rewrites,
        vec![MigrationRewrite::AddField { key: "profile_version".to_string(), value: "2".to_string() }]
    );
}

#[test]
fn plan_finds_no_route_for_versioned_text() {
    let src = "demo {\n  name = \"demo\"\n  version = \"0.1.0\"\n  root = \".\"\n  profile_version = 2\n}\n";
    let doc = parse_bsol_document(src).expect("parse");
    let target = load_profile("project.v2").expect("profile");
    assert_eq!(plan_migration(&doc, src, &target), Ok(None));
}

#[test]
fn add_field_goes_before_the_last_brace_once() {
    let p = plan(vec![MigrationRewrite::AddField { key: "k".to_string(), value: "v".to_string() }]);
    assert_eq!(apply_migration("a {\n}\nb {\n}", &p), Ok("a {\n}\nb {\n\n  k = \"v\"}".to_string()));
    assert_eq!(apply_migration("a {\n  k = 1\n}", &p), Ok("a {\n  k = 1\n}".to_string()));
    assert_eq!(apply_migration("no braces", &p), Ok("no braces".to_string()));
}

#[test]
fn rename_and_replace_rewrite_every_occurrence() {
    let p = plan(vec![
        MigrationRewrite::RenameField { from: "old".to_string(), to: "new".to_string() },
        MigrationRewrite::ReplaceValue { from: "aa".to_string(), to: "b".to_string() },
    ]);
    assert_eq!(
        apply_migration("x { old = \"aaa\" old = 1 older = 2 }", &p),
        Ok("x { new = \"ba\" new = 1 older = 2 }".to_string())
    );
}

#[test]
fn replacing_the_empty_text_surrounds_every_character() {
    let p = plan(vec![MigrationRewrite::ReplaceValue { from: String::new(), to: "-".to_string() }]);
    assert_eq!(apply_migration("ab", &p), Ok("-a-b-".to_string()));
    assert_eq!(apply_migration("", &p), Ok("-".to_string()));
}

#[test]
fn migrate_v1_manifest_to_v2() {
    let (migrated, validated) = migrate_document(V1_MANIFEST, "project.v2").expect("migrate");
    assert!(migrated.contains("profile_version = \"2\""));
    assert_eq!(validated.profile, "project.v2");
    assert_eq!(validated.blocks.len(), 1);
    assert_eq!(validated.blocks[0].field("profile_version"), Some("2"));
}

#[test]
fn migrate_without_a_route_is_an_error() {
    let src = "demo {\n  name = \"demo\"\n  version = \"0.1.0\"\n  root = \".\"\n  profile_version = 2\n}\n";
    assert_eq!(
        migrate_document(src, "project.v2").err(),
        Some(BsolError::Schema("no migration route matched".to_string()))
    );
    assert_eq!(
        migrate_document(V1_MANIFEST, "nope.v9").err(),
        Some(BsolError::UnknownProfile("nope.v9".to_string()))
    );
}

fn add(key: &str, value: &str) -> MigrationRewrite {
    MigrationRewrite::AddField { key: key.to_string(), value: value.to_string() }
}

#[test]
fn field_additions_applied_twice_change_nothing_more() {
    let p = plan(vec![add("b", "1"), add("c", "2")]);
    let once = apply_migration("x {\n}", &p).expect("once");
    assert_eq!(once, "x {\n\n  b = \"1\"\n  c = \"2\"}");
    assert_eq!(apply_migration(&once, &p).expect("twice"), once);
}

#[test]
fn a_later_addition_can_split_an_earlier_key_holding_a_brace() {
    let p = plan(vec![add("a}", "v"), add("b", "w")]);
    let once = apply_migration("a} =", &p).expect("once");
    assert_eq!(once, "a\n  b = \"w\"} =");
    assert_ne!(apply_migration(&once, &p).expect("twice"), once);
}
