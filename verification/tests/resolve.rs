use bsol::{
    load_profile_from_source, parse_pckg_shorthand, resolve_active_profile, resolve_profile,
    BsolError, BsolSpan, CompositeSchemaSource, FileSchemaSource, ImportSchemaSpec, ImportSource,
    PckgSchemaSource, SchemaCollection, SchemaProfile, SchemaSource,
};

const BASE: &str = r#"profile "base.v1" {
  version = 1
  rule "item" {
    scope = top
    match = keyword
    keyword = item
    label = required
    field "name" { type = quoted }
  }
}
"#;

const APP: &str = r#"profile "app.v1" {
  version = 1
  import_schema "base.v1" {
    from = file
    path = "base.bsol"
  }
  rule "app" {
    scope = top
    match = keyword
    keyword = app
    field "title" { type = quoted }
  }
}
"#;

const LOOP_A: &str = r#"profile "loop.a" {
  version = 1
  import_schema "loop.b" {
    from = file
    path = "b.bsol"
  }
}
"#;

const LOOP_B: &str = r#"profile "loop.b" {
  version = 1
  import_schema "loop.a" {
    from = file
    path = "a.bsol"
  }
}
"#;

/// Profiles served from memory by import name.
struct MemorySource {
    entries: Vec<(&'static str, &'static str)>,
}

impl SchemaSource for MemorySource {
    fn resolve(&self, spec: &ImportSchemaSpec, _base_dir: &str) -> Result<SchemaProfile, BsolError> {
        for (name, text) in &self.entries {
            if *name == spec.name {
                return load_profile_from_source(text);
            }
        }
        Err(BsolError::Import(format!("not in memory: {}", spec.name)))
    }
}

fn span() -> BsolSpan {
    BsolSpan { start: 0, end: 0, line: 1 }
}

fn import(name: &str, from: ImportSource) -> ImportSchemaSpec {
    ImportSchemaSpec { name: name.to_string(), alias: None, from, span: span() }
}

fn holds_rule(profile: &SchemaProfile, id: &str) -> bool {
    profile.rules.iter().any(|(k, _)| k == id)
}

#[test]
fn parse_pckg_reference() {
    let (pkg, ver, path) =
        parse_pckg_shorthand("@pckg/beskid-schemas/1.0.0/project.v1.bsol").expect("parse");
    assert_eq!(pkg, "beskid-schemas");
    assert_eq!(ver, "1.0.0");
    assert_eq!(path, "project.v1.bsol");
}

#[test]
fn pckg_reference_errors_and_nested_path() {
    assert_eq!(
        parse_pckg_shorthand("pckg/a/1/p.bsol"),
        Err(BsolError::Import("invalid pckg reference `pckg/a/1/p.bsol`".to_string()))
    );
    assert_eq!(
        parse_pckg_shorthand("@pckg//1/p.bsol"),
        Err(BsolError::Import("pckg reference missing package".to_string()))
    );
    assert_eq!(
        parse_pckg_shorthand("@pckg/pkg"),
        Err(BsolError::Import("pckg reference missing version".to_string()))
    );
    assert_eq!(
        parse_pckg_shorthand("@pckg/pkg//p.bsol"),
        Err(BsolError::Import("pckg reference missing version".to_string()))
    );
    assert_eq!(
        parse_pckg_shorthand("@pckg/pkg/1.0"),
        Err(BsolError::Import("pckg reference missing profile path".to_string()))
    );
    assert_eq!(
        parse_pckg_shorthand("@pckg/pkg/1.0/"),
        Err(BsolError::Import("pckg reference missing profile path".to_string()))
    );
    let (pkg, ver, path) = parse_pckg_shorthand("@pckg/pkg/1.0/dir/é.bsol").expect("parse");
    assert_eq!((pkg.as_str(), ver.as_str(), path.as_str()), ("pkg", "1.0", "dir/é.bsol"));
}

#[test]
fn collection_insert_then_get_and_collision() {
    let mut c = SchemaCollection::default();
    assert!(c.get("base.v1").is_none());
    let base = load_profile_from_source(BASE).expect("base");
    c.insert("base.v1".to_string(), base).expect("first insert");
    assert_eq!(c.get("base.v1").expect("present").name, "base.v1");
    let again = load_profile_from_source(APP).expect("app");
    assert_eq!(
        c.insert("base.v1".to_string(), again),
        Err(BsolError::Import("schema profile name collision: `base.v1`".to_string()))
    );
    assert_eq!(c.get("base.v1").expect("kept").name, "base.v1");
    assert_eq!(c.profiles().len(), 1);
}

#[test]
fn resolve_profile_collects_imports_under_their_names() {
    let source = MemorySource { entries: vec![("base.v1", BASE)] };
    let app = load_profile_from_source(APP).expect("app");
    let c = resolve_profile(app, ".", &source).expect("resolve");
    assert_eq!(c.profiles().len(), 2);
    assert!(holds_rule(c.get("base.v1").expect("base"), "item"));
    assert!(holds_rule(c.get("app.v1").expect("app"), "app"));
}

#[test]
fn resolve_profile_without_imports_holds_only_the_profile() {
    let source = MemorySource { entries: vec![] };
    let base = load_profile_from_source(BASE).expect("base");
    let c = resolve_profile(base, ".", &source).expect("resolve");
    assert_eq!(c.profiles().len(), 1);
    assert!(c.get("base.v1").is_some());
}

#[test]
fn resolve_profile_reports_a_failed_import() {
    let source = MemorySource { entries: vec![] };
    let app = load_profile_from_source(APP).expect("app");
    assert_eq!(
        resolve_profile(app, ".", &source).err(),
        Some(BsolError::Import("not in memory: base.v1".to_string()))
    );
}

#[test]
fn resolve_profile_stops_on_cyclic_imports() {
    let source = MemorySource { entries: vec![("loop.a", LOOP_A), ("loop.b", LOOP_B)] };
    let a = load_profile_from_source(LOOP_A).expect("a");
    assert_eq!(
        resolve_profile(a, ".", &source).err(),
        Some(BsolError::Import("cyclic `import_schema` of `loop.b`".to_string()))
    );
}

#[test]
fn resolve_active_profile_lays_imports_under_the_profile() {
    let source = MemorySource { entries: vec![("base.v1", BASE)] };
    let app = load_profile_from_source(APP).expect("app");
    let active = resolve_active_profile(app, ".", &source).expect("active");
    assert_eq!(active.name, "app.v1");
    assert!(holds_rule(&active, "item"));
    assert!(holds_rule(&active, "app"));
}

#[test]
fn resolve_active_profile_without_imports_is_the_composed_profile() {
    let source = MemorySource { entries: vec![] };
    let base = load_profile_from_source(BASE).expect("base");
    let active = resolve_active_profile(base, ".", &source).expect("active");
    assert_eq!(active.name, "base.v1");
    assert_eq!(active.rules.len(), 1);
    assert!(holds_rule(&active, "item"));
}

#[test]
fn composite_source_tries_each_source_in_turn() {
    let spec = import("base.v1", ImportSource::File { path: "base.bsol".to_string() });
    let empty = CompositeSchemaSource::new(vec![]);
    assert_eq!(
        empty.resolve(&spec, ".").err(),
        Some(BsolError::Import("no resolver for schema `base.v1`".to_string()))
    );
    let mut chain = CompositeSchemaSource::new(vec![Box::new(MemorySource { entries: vec![] })]);
    assert_eq!(
        chain.resolve(&spec, ".").err(),
        Some(BsolError::Import("not in memory: base.v1".to_string()))
    );
    chain.add_source(Box::new(MemorySource { entries: vec![("base.v1", BASE)] }));
    assert_eq!(chain.resolve(&spec, ".").expect("second source").name, "base.v1");
}

#[test]
fn file_source_names_the_imported_file() {
    let files = FileSchemaSource;
    let spec = import("base.v1", ImportSource::File { path: "schemas/base.bsol".to_string() });
    assert_eq!(files.file_path(&spec), Ok("schemas/base.bsol".to_string()));
    let git = import(
        "board.v2",
        ImportSource::Git { url: "u".to_string(), rev: "r".to_string(), path: "p".to_string() },
    );
    assert_eq!(
        files.file_path(&git),
        Err(BsolError::Import(
            "file resolver cannot resolve `Git { url: \"u\", rev: \"r\", path: \"p\" }` for `board.v2`"
                .to_string()
        ))
    );
}

#[test]
fn pckg_source_maps_imports_to_cache_entries() {
    let cache = PckgSchemaSource::new("/cache");
    assert_eq!(cache.cache_root, "/cache");
    let short = import(
        "project.v1",
        ImportSource::PckgShorthand { reference: "@pckg/schemas/1.0.0/project.v1.bsol".to_string() },
    );
    assert_eq!(
        cache.package_parts(&short),
        Ok(("schemas".to_string(), "1.0.0".to_string(), "project.v1.bsol".to_string()))
    );
    let registry = import(
        "runtime.v1",
        ImportSource::Registry {
            package: "p".to_string(),
            version: "2".to_string(),
            path: "runtime.v1.bsol".to_string(),
        },
    );
    assert_eq!(
        cache.package_parts(&registry),
        Ok(("p".to_string(), "2".to_string(), "runtime.v1.bsol".to_string()))
    );
    let file = import("x", ImportSource::File { path: "x.bsol".to_string() });
    assert_eq!(
        cache.package_parts(&file),
        Err(BsolError::Import(
            "pckg resolver cannot resolve `File { path: \"x.bsol\" }`".to_string()
        ))
    );
}

const VENDORED: &str = r#"profile "app.v2" {
  version = 1
  import_schema "base.v1" {
    from = file
    path = "base.bsol"
  }
  import_schema "base.v1" {
    from = file
    path = "vendor/base.bsol"
    alias = "base.v1.vendor"
  }
}
"#;

#[test]
fn an_alias_keys_a_colliding_import() {
    let source = MemorySource { entries: vec![("base.v1", BASE)] };
    let app = load_profile_from_source(VENDORED).expect("app");
    let c = resolve_profile(app, ".", &source).expect("resolve");
    assert_eq!(c.profiles().len(), 3);
    assert!(c.get("app.v2").is_some());
    assert_eq!(c.get("base.v1").expect("base").name, "base.v1");
    assert_eq!(c.get("base.v1.vendor").expect("vendored").name, "base.v1");
}

const RENAMED: &str = r#"profile "app.v3" {
  version = 1
  import_schema "base.latest" {
    from = file
    path = "base.bsol"
  }
}
"#;

#[test]
fn an_unaliased_import_is_collected_under_the_profile_name() {
    let source = MemorySource { entries: vec![("base.latest", BASE)] };
    let app = load_profile_from_source(RENAMED).expect("app");
    let c = resolve_profile(app, ".", &source).expect("resolve");
    assert_eq!(c.profiles().len(), 2);
    assert!(c.get("base.latest").is_none());
    assert_eq!(c.get("base.v1").expect("own name").name, "base.v1");
    assert!(c.get("app.v3").is_some());
}

const SELF_ROOT: &str = r#"profile "self.v1" {
  version = 1
  import_schema "x" {
    from = file
    path = "x.bsol"
  }
}
"#;

const SELF_FETCHED: &str = r#"profile "self.v1" {
  version = 2
}
"#;

#[test]
fn a_fetched_profile_with_the_importer_name_collides() {
    let source = MemorySource { entries: vec![("x", SELF_FETCHED)] };
    let root = load_profile_from_source(SELF_ROOT).expect("root");
    assert_eq!(
        resolve_profile(root, ".", &source).err(),
        Some(BsolError::Import("schema profile name collision: `self.v1`".to_string()))
    );
}

#[test]
fn composite_source_keeps_the_order_given_and_appended() {
    let spec = import("base.v1", ImportSource::File { path: "base.bsol".to_string() });
    let chain = CompositeSchemaSource::new(vec![
        Box::new(MemorySource { entries: vec![("base.v1", APP)] }),
        Box::new(MemorySource { entries: vec![("base.v1", BASE)] }),
    ]);
    assert_eq!(chain.resolve(&spec, ".").expect("first").name, "app.v1");
    let mut appended = CompositeSchemaSource::new(vec![Box::new(MemorySource { entries: vec![] })]);
    appended.add_source(Box::new(MemorySource { entries: vec![("base.v1", BASE)] }));
    appended.add_source(Box::new(MemorySource { entries: vec![("base.v1", APP)] }));
    assert_eq!(appended.resolve(&spec, ".").expect("second").name, "base.v1");
}
