use bsol::value_type::split_type_union;
use bsol::{
    compose_profile, embedded_profile_names, load_profile, merge_profiles, parse_bsol_document,
    validate, validate_extends_dag, BlockRule, BsolError, Cardinality,
    FieldConstraints, FieldRule, KindMatch, LabelRequirement, RuleScope, SchemaProfile, ValueType,
};

fn has_rule(profile: &SchemaProfile, id: &str) -> bool {
    profile.rule(id).is_some()
}

#[test]
fn load_project_profile() {
    let profile = load_profile("project.v1").expect("load project profile");
    assert_eq!(profile.name, "project.v1");
    assert!(has_rule(&profile, "root"));
    assert!(has_rule(&profile, "target"));
}

#[test]
fn load_schema_meta_profile() {
    let profile = load_profile("schema.v1").expect("load schema.v1");
    assert_eq!(profile.name, "schema.v1");
    assert!(has_rule(&profile, "profile"));
}

#[test]
fn load_configuration_profile() {
    let profile = load_profile("configuration.v1").expect("load configuration.v1");
    assert_eq!(profile.name, "configuration.v1");
    assert!(has_rule(&profile, "config"));
    assert!(has_rule(&profile, "moduleConfig"));
    assert!(has_rule(&profile, "option"));
}

#[test]
fn all_embedded_profiles_load() {
    for name in embedded_profile_names() {
        load_profile(name).unwrap_or_else(|e| panic!("load {name}: {e:?}"));
    }
}

fn sample_field() -> FieldRule {
    FieldRule {
        value_type: ValueType::Quoted,
        required: true,
        list_values: None,
        constraints: FieldConstraints::default(),
        allowed_attrs: Vec::new(),
    }
}

fn sample_rule(id: &str, extends: Option<&str>) -> BlockRule {
    BlockRule {
        id: id.to_string(),
        scope: RuleScope::TopLevel,
        kind_match: KindMatch::Keyword(id.to_string()),
        label: LabelRequirement::Forbidden,
        cardinality: Cardinality::Many,
        fields: vec![(format!("{id}_field"), sample_field())],
        nested: Vec::new(),
        nested_order: Vec::new(),
        allow_extra_fields: false,
        allow_extra_nested: false,
        schemaless: false,
        extends: extends.map(str::to_string),
        mixes: Vec::new(),
        variants: Vec::new(),
        allowed_attrs: Vec::new(),
    }
}

#[test]
fn extends_merges_fields() {
    let rules = vec![
        ("base".to_string(), sample_rule("base", None)),
        ("child".to_string(), sample_rule("child", Some("base"))),
    ];
    let profile = SchemaProfile {
        name: "test".into(),
        version: 2,
        rules,
        top_level_order: vec!["base".into(), "child".into()],
        imports: Vec::new(),
        extends: Vec::new(),
        migrations: Vec::new(),
    };
    let composed = compose_profile(profile).expect("compose");
    let child = composed.rule("child").expect("child");
    assert!(child.fields.iter().any(|(k, _)| k == "base_field"));
    assert!(child.fields.iter().any(|(k, _)| k == "child_field"));
}

#[test]
fn type_unions_split_at_top_level_bars() {
    assert_eq!(split_type_union("quoted | list[a|b] | "), vec!["quoted", "list[a|b]"]);
    assert_eq!(split_type_union("  "), Vec::<String>::new());
}

#[test]
fn value_type_text_parses() {
    assert_eq!(ValueType::parse("u32"), Ok(ValueType::U32));
    assert_eq!(ValueType::parse("ref(node)"), Ok(ValueType::RefTo("node".to_string())));
    assert_eq!(
        ValueType::parse("list[ident]"),
        Ok(ValueType::ListOf(vec![ValueType::Ident]))
    );
    assert!(ValueType::parse("nonsense").is_err());
}

fn sample_profile(name: &str, version: u32, rules: Vec<(String, BlockRule)>) -> SchemaProfile {
    let order = rules.iter().map(|(k, _)| k.clone()).collect();
    SchemaProfile {
        name: name.into(),
        version,
        rules,
        top_level_order: order,
        imports: Vec::new(),
        extends: Vec::new(),
        migrations: Vec::new(),
    }
}

#[test]
fn composition_keeps_rule_ids_and_order() {
    let profile = sample_profile(
        "test",
        2,
        vec![
            ("child".to_string(), sample_rule("child", Some("base"))),
            ("base".to_string(), sample_rule("base", None)),
        ],
    );
    let composed = compose_profile(profile).expect("compose");
    let ids: Vec<&str> = composed.rules.iter().map(|(k, _)| k.as_str()).collect();
    assert_eq!(ids, vec!["child", "base"]);
    assert_eq!(composed.name, "test");
    assert_eq!(composed.top_level_order, vec!["child".to_string(), "base".to_string()]);
}

#[test]
fn extends_cycles_and_unknown_bases_are_refused() {
    let cycle = vec![
        ("a".to_string(), sample_rule("a", Some("b"))),
        ("b".to_string(), sample_rule("b", Some("a"))),
    ];
    assert!(validate_extends_dag(&cycle).is_err());
    let unknown = vec![("a".to_string(), sample_rule("a", Some("missing")))];
    assert!(validate_extends_dag(&unknown).is_err());
    let chain = vec![
        ("a".to_string(), sample_rule("a", Some("b"))),
        ("b".to_string(), sample_rule("b", None)),
    ];
    assert_eq!(validate_extends_dag(&chain), Ok(()));
}

#[test]
fn merging_profiles_takes_the_overlay_name_and_larger_version() {
    let base = sample_profile("base", 3, vec![("a".to_string(), sample_rule("a", None))]);
    let overlay = sample_profile("overlay", 2, vec![("b".to_string(), sample_rule("b", None))]);
    let merged = merge_profiles(base, overlay);
    assert_eq!(merged.name, "overlay");
    assert_eq!(merged.version, 3);
    assert!(has_rule(&merged, "a"));
    assert!(has_rule(&merged, "b"));
}

#[test]
fn validation_keeps_one_block_per_block() {
    let src = "demo {\n  name = \"demo\"\n  version = \"0.1.0\"\n  root = \".\"\n}\ntarget \"app\" {\n  kind = App\n}\n";
    let doc = parse_bsol_document(src).expect("parse");
    let profile = load_profile("project.v1").expect("profile");
    let v = validate(&doc, &profile).expect("validate");
    assert_eq!(v.profile, "project.v1");
    assert_eq!(v.blocks.len(), 2);
    assert_eq!(v.blocks[0].kind, "demo");
    assert_eq!(v.blocks[0].label, None);
    assert_eq!(v.blocks[1].kind, "target");
    assert_eq!(v.blocks[1].label, Some("app".to_string()));
    assert_eq!(v.blocks[0].span, doc.blocks[0].span);
}

#[test]
fn unknown_embedded_profile_is_reported() {
    assert_eq!(load_profile("nope.v9").err(), Some(BsolError::UnknownProfile("nope.v9".to_string())));
}

const CYCLIC_MIXES: &str = r#"profile "cyclic.v1" {
  version = 1
  rule "a" {
    scope = top
    match = keyword
    keyword = a
    mixes = [b]
  }
  rule "b" {
    scope = top
    match = keyword
    keyword = b
    mixes = [c]
  }
  rule "c" {
    scope = top
    match = keyword
    keyword = c
    mixes = [b]
  }
}
"#;

#[test]
fn cyclic_mixes_are_refused() {
    assert_eq!(
        bsol::load_profile_from_source(CYCLIC_MIXES).err(),
        Some(BsolError::Schema("cyclic rule composition through `b`".to_string()))
    );
}

const TWICE_DECLARED: &str = r#"profile "twice.v1" {
  version = 1
  rule "item" {
    scope = top
    match = keyword
    keyword = item
    field "a" { type = quoted }
  }
  rule "item" {
    scope = top
    match = keyword
    keyword = item
    field "b" { type = quoted }
    field "b" { type = i64 }
  }
}
"#;

#[test]
fn a_rule_declared_twice_is_held_once() {
    let profile = bsol::load_profile_from_source(TWICE_DECLARED).expect("profile");
    assert_eq!(profile.rules.len(), 1);
    let rule = profile.rule("item").expect("item");
    assert_eq!(rule.fields.len(), 1);
    assert_eq!(rule.fields[0].0, "b");
}
