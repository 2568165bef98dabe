use bsol::embedded::{
    BOARD_V1, BOARD_V2, BOARD_V3, CONFIGURATION_V1, CONFIGURATION_V2, PROJECT_V1, PROJECT_V2,
    RUNTIME_V1, RUNTIME_V2, SCHEMA_V1, SCHEMA_V2, SHELL_PAGES_V1, TOOLS_CONFIG_V1, WORKSPACE_V1,
};
use bsol::{load_profile, parse_bsol_document, validate, validate_profile_document};

#[test]
fn meta_schema_validates_itself() {
    let source = SCHEMA_V1;
    validate_profile_document(source).expect("schema.v1 self-validation");
}

#[test]
fn all_embedded_profiles_are_well_formed() {
    for name in [
        "project.v1",
        "workspace.v1",
        "runtime.v1",
        "board.v1",
        "board.v2",
    ] {
        let profile = load_profile(name).unwrap_or_else(|e| panic!("load {name}: {e:?}"));
        assert_eq!(profile.name, name);
    }
}

#[test]
fn project_v1_accepts_minimal_host_manifest() {
    let src = r#"demo {
  name = "demo"
  version = "0.1.0"
  root = "."
}
target "app" {
  kind = App
  entry = "Main.bd"
}
"#;
    let doc = parse_bsol_document(src).expect("parse");
    let profile = load_profile("project.v1").expect("profile");
    validate(&doc, &profile).expect("validate");
}

#[test]
fn board_v2_accepts_minimal_layout() {
    let src = r#"board "default" {
  version = 2
  root = "main"
}
node "main" {
  kind = panel
  widget = "welcome"
}
"#;
    let doc = parse_bsol_document(src).expect("parse");
    let profile = load_profile("board.v2").expect("profile");
    validate(&doc, &profile).expect("validate");
}

#[test]
fn duplicate_field_keys_are_rejected() {
    let src = r#"demo {
  name = "a"
  name = "b"
  version = "1"
  root = "."
}
"#;
    let doc = parse_bsol_document(src).expect("parse");
    let profile = load_profile("project.v1").expect("profile");
    assert!(validate(&doc, &profile).is_err());
}

#[test]
fn analyze_minimal_project_block() {
    let src = r#"demo {
  name = "demo"
  version = "0.1.0"
  root = "."
}
"#;
    let result = bsol::analyze_with_profile(src, "project.v1");
    assert!(result.is_ok(), "{:?}", result.err());
}

#[test]
fn validates_project_v2_dependency_variants() {
    let src = r#"demo {
  name = "demo"
  version = "1.0.0"
  root = "."
}
dependency "core" {
  source = git
  url = "https://example.com"
  rev = "main"
}
"#;
    let doc = parse_bsol_document(src).expect("parse");
    let profile = load_profile("project.v2").expect("profile");
    validate(&doc, &profile).expect("validate git dependency");
}

#[test]
fn rejects_git_dependency_missing_rev() {
    let src = r#"demo {
  name = "demo"
  version = "1.0.0"
  root = "."
}
dependency "core" {
  source = git
  url = "https://example.com"
}
"#;
    let doc = parse_bsol_document(src).expect("parse");
    let profile = load_profile("project.v2").expect("profile");
    assert!(validate(&doc, &profile).is_err());
}

#[test]
fn embedded_profiles_validate_against_the_meta_schema() {
    for (name, source) in [
        ("schema.v1", SCHEMA_V1),
        ("schema.v2", SCHEMA_V2),
        ("project.v1", PROJECT_V1),
        ("project.v2", PROJECT_V2),
        ("workspace.v1", WORKSPACE_V1),
        ("runtime.v1", RUNTIME_V1),
        ("runtime.v2", RUNTIME_V2),
        ("board.v1", BOARD_V1),
        ("board.v2", BOARD_V2),
        ("board.v3", BOARD_V3),
        ("shell.pages.v1", SHELL_PAGES_V1),
        ("tools.config.v1", TOOLS_CONFIG_V1),
        ("configuration.v1", CONFIGURATION_V1),
        ("configuration.v2", CONFIGURATION_V2),
    ] {
        let profile = validate_profile_document(source)
            .unwrap_or_else(|e| panic!("{name} against schema.v1: {e:?}"));
        assert_eq!(profile.name, name);
    }
}

#[test]
fn enum_or_quoted_accepts_any_quoted_string() {
    let profile = load_profile("project.v1").expect("profile");
    let quoted = "demo {\n  name = \"demo\"\n  version = \"0.1.0\"\n  root = \".\"\n}\ntarget \"app\" {\n  kind = \"Custom\"\n}\n";
    let doc = parse_bsol_document(quoted).expect("parse");
    validate(&doc, &profile).expect("a quoted kind is accepted");
    let bare = "demo {\n  name = \"demo\"\n  version = \"0.1.0\"\n  root = \".\"\n}\ntarget \"app\" {\n  kind = Custom\n}\n";
    let doc = parse_bsol_document(bare).expect("parse");
    assert!(validate(&doc, &profile).is_err());
}
