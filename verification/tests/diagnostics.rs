use bsol::diagnostics::{collect_diagnostics, profile_for_path, DiagnosticSpot};
use bsol::{apply_migration, BsolError, MigrationPlan, MigrationRewrite};

#[test]
fn profile_follows_the_file_extension() {
    assert_eq!(profile_for_path("/w/main.bws"), "workspace.v1");
    assert_eq!(profile_for_path("/w/project.v1.bsol"), "schema.v1");
    assert_eq!(profile_for_path("/w/app.bproj"), "project.v1");
    assert_eq!(profile_for_path("bsol"), "schema.v1");
    assert_eq!(profile_for_path(""), "project.v1");
}

#[test]
fn error_messages_read_like_their_display() {
    let e = BsolError::ParseAt { line: 12, message: "bad".to_string(), start: None, end: None };
    assert_eq!(e.to_string(), "BSOL parse error at line 12: bad");
    assert_eq!(BsolError::Parse("x".to_string()).to_string(), "BSOL parse error: x");
    let s = BsolError::SchemaAt { line: 3, message: "m".to_string(), start: Some(1), end: Some(4) };
    assert_eq!(s.to_string(), "BSOL schema error at line 3: m");
    assert_eq!(BsolError::Schema("y".to_string()).to_string(), "BSOL schema error: y");
    assert_eq!(
        BsolError::UnknownProfile("p".to_string()).to_string(),
        "unknown schema profile `p`"
    );
    assert_eq!(BsolError::Import("i".to_string()).to_string(), "schema import error: i");
}

#[test]
fn clean_document_has_no_diagnostics() {
    let src = "demo {\n  name = \"demo\"\n  version = \"0.1.0\"\n  root = \".\"\n}\n";
    assert_eq!(collect_diagnostics(src, "project.v1"), vec![]);
}

#[test]
fn schema_error_is_shown_on_its_line() {
    let src = "demo {\n  name = 5\n  version = \"0.1.0\"\n  root = \".\"\n}\n";
    let d = collect_diagnostics(src, "project.v1");
    assert_eq!(d.len(), 1);
    assert_eq!(d[0].line, 1);
    assert!(d[0].width >= 1);
    assert!(d[0].message.starts_with("BSOL schema error at line 2: "));
}

#[test]
fn parse_error_is_shown_once() {
    let d = collect_diagnostics("demo {\n  name = \n", "project.v1");
    assert_eq!(d.len(), 1);
    let DiagnosticSpot { message, width, .. } = &d[0];
    assert!(message.starts_with("BSOL parse error"));
    assert!(*width >= 1);
}

#[test]
fn unknown_profile_is_shown_on_the_first_line() {
    let src = "demo {\n  name = \"demo\"\n}\n";
    let d = collect_diagnostics(src, "nope.v1");
    assert_eq!(
        d,
        vec![DiagnosticSpot { line: 0, width: 1, message: "unknown schema profile `nope.v1`".to_string() }]
    );
}

#[test]
fn replacing_absent_text_changes_nothing() {
    let plan = MigrationPlan {
        from_profile: "a".to_string(),
        to_profile: "b".to_string(),
        rewrites: vec![MigrationRewrite::ReplaceValue { from: "zz".to_string(), to: "q".to_string() }],
    };
    assert_eq!(apply_migration("abc { x = 1 }", &plan), Ok("abc { x = 1 }".to_string()));
}

#[test]
fn adding_a_field_twice_adds_it_once() {
    let once = MigrationPlan {
        from_profile: "a".to_string(),
        to_profile: "b".to_string(),
        rewrites: vec![MigrationRewrite::AddField { key: "k".to_string(), value: "v".to_string() }],
    };
    let twice = MigrationPlan {
        from_profile: "a".to_string(),
        to_profile: "b".to_string(),
        rewrites: vec![
            MigrationRewrite::AddField { key: "k".to_string(), value: "v".to_string() },
            MigrationRewrite::AddField { key: "k".to_string(), value: "w".to_string() },
        ],
    };
    let a = apply_migration("x {\n}", &once).expect("once");
    assert_eq!(a, "x {\n\n  k = \"v\"}");
    assert_eq!(apply_migration("x {\n}", &twice), Ok(a));
}
