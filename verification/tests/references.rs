use bsol::{
    analyze_document_with, analyze_source_with, load_profile, observe_phase, parse_bsol_document,
    resolve_references, validate, AnalysisOptions, BsolError, CompositeSchemaSource,
    NoValidators, NullObserver, PhaseResult, PipelineObserver, RuleValidators, ValidatedBlock,
};

const BOARD: &str = r#"board "default" {
  version = 3
  root = @node/main
}
node "main" {
  kind = panel
  children = [@node/side, @/main]
}
node "side" {
  kind = panel
}
"#;

const BROKEN_BOARD: &str = r#"board "default" {
  version = 3
  root = @node/main
}
node "main" {
  kind = panel
  children = [@node/ghost]
}
"#;

/// Records every phase notification.
struct Recorder {
    events: Vec<String>,
}

impl PipelineObserver for Recorder {
    fn on_phase_start(&mut self, phase: &str) {
        self.events.push(format!("start {phase}"));
    }

    fn on_phase_end(&mut self, phase: &str, result: PhaseResult) {
        self.events.push(format!("end {phase} {result:?}"));
    }
}

#[test]
fn references_to_labelled_blocks_resolve() {
    let doc = parse_bsol_document(BOARD).expect("parse");
    let profile = load_profile("board.v3").expect("profile");
    let mut validated = validate(&doc, &profile).expect("validate");
    let before = format!("{validated:?}");
    assert_eq!(resolve_references(&mut validated), Ok(()));
    assert_eq!(format!("{validated:?}"), before);
}

#[test]
fn unresolved_reference_is_reported_at_its_span() {
    let doc = parse_bsol_document(BROKEN_BOARD).expect("parse");
    let profile = load_profile("board.v3").expect("profile");
    let mut validated = validate(&doc, &profile).expect("validate");
    match resolve_references(&mut validated) {
        Err(BsolError::SchemaAt { message, .. }) => {
            assert_eq!(message, "unresolved reference `@node/ghost`");
        }
        other => panic!("expected an unresolved reference, got {other:?}"),
    }
}

#[test]
fn observe_phase_reports_start_and_outcome() {
    let mut rec = Recorder { events: Vec::new() };
    let ok: Result<u32, BsolError> = observe_phase(&mut rec, "p.one", || Ok(7));
    assert_eq!(ok, Ok(7));
    let err: Result<u32, BsolError> =
        observe_phase(&mut rec, "p.two", || Err(BsolError::Schema("bad".to_string())));
    assert_eq!(err, Err(BsolError::Schema("bad".to_string())));
    assert_eq!(
        rec.events,
        vec!["start p.one", "end p.one Success", "start p.two", "end p.two Failure"]
    );
}

#[test]
fn session_runs_the_phases_in_order() {
    let mut rec = Recorder { events: Vec::new() };
    let options = AnalysisOptions::for_profile("board.v3");
    let sources = CompositeSchemaSource::new(vec![]);
    let validated = analyze_source_with(&mut rec, BOARD, &options, &sources, &NoValidators)
        .expect("analyze");
    assert_eq!(validated.profile, "board.v3");
    assert_eq!(validated.blocks.len(), 3);
    assert_eq!(
        rec.events,
        vec![
            "start parse.syntax",
            "end parse.syntax Success",
            "start schema.collect",
            "end schema.collect Success",
            "start schema.resolve.file",
            "end schema.resolve.file Success",
            "start schema.validate",
            "end schema.validate Success",
            "start schema.semantic",
            "end schema.semantic Success",
            "start schema.snapshot",
            "end schema.snapshot Success",
        ]
    );
}

#[test]
fn session_reports_a_failed_validation() {
    let mut observer = NullObserver;
    let doc = parse_bsol_document("node \"x\" {\n}\n").expect("parse");
    let profile = load_profile("board.v3").expect("profile");
    let sources = CompositeSchemaSource::new(vec![]);
    let r = analyze_document_with(&mut observer, &doc, profile, ".", &sources, &NoValidators);
    assert!(r.is_err());
}

/// Refuses every block.
struct RefuseAll;

impl RuleValidators for RefuseAll {
    fn run(&self, _block: &ValidatedBlock) -> Result<(), BsolError> {
        Err(BsolError::Schema("refused".to_string()))
    }
}

#[test]
fn validators_decide_only_when_there_are_blocks() {
    let mut observer = NullObserver;
    let sources = CompositeSchemaSource::new(vec![]);
    let options = AnalysisOptions::for_profile("tools.config.v1");
    let empty = analyze_source_with(&mut observer, "", &options, &sources, &RefuseAll);
    let doc = parse_bsol_document("").expect("parse");
    let profile = load_profile("tools.config.v1").expect("profile");
    assert_eq!(empty, validate(&doc, &profile));
    let board = analyze_source_with(
        &mut observer,
        BOARD,
        &AnalysisOptions::for_profile("board.v3"),
        &sources,
        &RefuseAll,
    );
    assert_eq!(board.err(), Some(BsolError::Schema("refused".to_string())));
}

/// Refuses the block labelled `side`, and notes every block it is asked about.
struct RefuseSide {
    asked: std::cell::RefCell<Vec<String>>,
}

impl RuleValidators for RefuseSide {
    fn run(&self, block: &ValidatedBlock) -> Result<(), BsolError> {
        let label = block.label.clone().unwrap_or_default();
        self.asked.borrow_mut().push(format!("{} {}", block.kind, label));
        if label == "side" {
            Err(BsolError::Schema("side refused".to_string()))
        } else {
            Ok(())
        }
    }
}

#[test]
fn checks_run_in_document_order_and_their_error_is_the_result() {
    let mut rec = Recorder { events: Vec::new() };
    let sources = CompositeSchemaSource::new(vec![]);
    let checks = RefuseSide { asked: std::cell::RefCell::new(Vec::new()) };
    let r = analyze_source_with(
        &mut rec,
        BOARD,
        &AnalysisOptions::for_profile("board.v3"),
        &sources,
        &checks,
    );
    assert_eq!(r.err(), Some(BsolError::Schema("side refused".to_string())));
    assert_eq!(*checks.asked.borrow(), vec!["board default", "node main", "node side"]);
    assert_eq!(
        rec.events,
        vec![
            "start parse.syntax",
            "end parse.syntax Success",
            "start schema.collect",
            "end schema.collect Success",
            "start schema.resolve.file",
            "end schema.resolve.file Success",
            "start schema.validate",
            "end schema.validate Failure",
        ]
    );
}

#[test]
fn a_structural_error_comes_before_any_check() {
    let mut observer = NullObserver;
    let sources = CompositeSchemaSource::new(vec![]);
    let checks = RefuseSide { asked: std::cell::RefCell::new(Vec::new()) };
    let doc = parse_bsol_document("node \"x\" {\n}\n").expect("parse");
    let profile = load_profile("board.v3").expect("profile");
    let structural = validate(&doc, &profile).err();
    assert!(structural.is_some());
    let r = analyze_document_with(&mut observer, &doc, profile, ".", &sources, &checks);
    assert_eq!(r.err(), structural);
}

#[test]
fn a_parse_error_is_the_result_and_ends_the_run() {
    let mut rec = Recorder { events: Vec::new() };
    let sources = CompositeSchemaSource::new(vec![]);
    let text = "node \"x\" {\n  kind = \n";
    let expected = parse_bsol_document(text).err();
    assert!(expected.is_some());
    let r = analyze_source_with(
        &mut rec,
        text,
        &AnalysisOptions::for_profile("board.v3"),
        &sources,
        &NoValidators,
    );
    assert_eq!(r.err(), expected);
    assert_eq!(rec.events, vec!["start parse.syntax", "end parse.syntax Failure"]);
}

#[test]
fn an_unknown_profile_is_the_result() {
    let mut rec = Recorder { events: Vec::new() };
    let sources = CompositeSchemaSource::new(vec![]);
    let r = analyze_source_with(
        &mut rec,
        BOARD,
        &AnalysisOptions::for_profile("no.such.profile"),
        &sources,
        &NoValidators,
    );
    assert_eq!(r.err(), load_profile("no.such.profile").err());
    assert_eq!(rec.events, vec!["start parse.syntax", "end parse.syntax Success"]);
}

const IMPORTING: &str = r#"profile "board.v3" {
  version = 1
  import_schema "base.v1" {
    from = file
    path = "base.bsol"
  }
}
"#;

#[test]
fn a_failed_import_is_the_result_of_the_collect_phase() {
    let mut rec = Recorder { events: Vec::new() };
    let sources = CompositeSchemaSource::new(vec![]);
    let doc = parse_bsol_document(BOARD).expect("parse");
    let profile = bsol::load_profile_from_source(IMPORTING).expect("profile");
    let r = analyze_document_with(&mut rec, &doc, profile, ".", &sources, &NoValidators);
    assert_eq!(
        r.err(),
        Some(BsolError::Import("no resolver for schema `base.v1`".to_string()))
    );
    assert_eq!(rec.events, vec!["start schema.collect", "end schema.collect Failure"]);
}
