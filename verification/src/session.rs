//! Analysis entry points: parse, load a profile, validate.

use vstd::prelude::*;
use vstd::string::StringSliceAdditionalSpecFns;

use crate::ast::{BsolDocument, SDocument};
use crate::compose::profile_res;
use crate::embedded::{load_profile, load_profile_spec};
use crate::error::{BsolError, SError};
use crate::grammar::{document_of, document_unspannable_from};
use crate::loader::{load_profile_from_source, load_source_spec};
use crate::observer::{
    observe_phase, PhaseEvent, PhaseResult, PipelineObserver, PARSE_SYNTAX, SCHEMA_COLLECT,
    SCHEMA_RESOLVE_FILE, SCHEMA_SEMANTIC, SCHEMA_SNAPSHOT, SCHEMA_VALIDATE,
};
use crate::parser::{doc_res, parse_bsol_document};
use crate::resolver::{
    answered_by, collect_spec, collection_res, resolve_profile, FetchLog, SchemaCollection,
    SchemaSource, IMPORT_DEPTH,
};
use crate::schema_view::SImport;
use crate::schema_view::view_profile;
use crate::schema::SchemaProfile;
use crate::schema_view::SProfile;
use crate::text::owned;
use crate::validate::{accepts_all, answered_in_turn, validate, validate_with, vd_res, RuleValidators};
use crate::validate_spec::{validate_checked, CheckLog};
use crate::validated::view_vblock;
use crate::validate_spec::validate_spec;
use crate::validated::{SVBlock, SVDoc, ValidatedDocument};

verus! {

/// Options for a single document analysis run.
#[derive(Debug)]
pub struct AnalysisOptions {
    pub profile_name: String,
    pub base_dir: String,
}

impl AnalysisOptions {
    /// Options for the embedded profile `name`, resolving imports from `.`.
    pub fn for_profile(name: &str) -> (r: Self)
        ensures
            r.profile_name@ == name@,
            r.base_dir@ == "."@,
    {
        AnalysisOptions { profile_name: owned(name), base_dir: owned(".") }
    }

    /// The same options with another base directory.
    pub fn with_base_dir(self, base_dir: &str) -> (r: Self)
        ensures
            r.profile_name@ == self.profile_name@,
            r.base_dir@ == base_dir@,
    {
        AnalysisOptions { profile_name: self.profile_name, base_dir: owned(base_dir) }
    }
}

/// Parse `source`, load the embedded profile, validate.
pub open spec fn analyze_spec(source: Seq<u8>, profile_name: Seq<char>) -> Result<SVDoc, SError> {
    match document_of(source) {
        Err(e) => Err(e),
        Ok(blocks) => match load_profile_spec(profile_name) {
            Err(e) => Err(e),
            Ok(p) => validate_spec(SDocument { blocks }, p),
        },
    }
}

/// Convenience: parse, load embedded profile, validate.
pub fn analyze_with_profile(source: &str, profile_name: &str) -> (r: Result<ValidatedDocument, BsolError>)
    requires
        !document_unspannable_from(source.spec_bytes(), 0),
    ensures
        vd_res(r) == analyze_spec(source.spec_bytes(), profile_name@),
{
    let document = match parse_bsol_document(source) {
        Err(e) => {
            return Err(e);
        },
        Ok(d) => d,
    };
    let profile = match load_profile(profile_name) {
        Err(e) => {
            return Err(e);
        },
        Ok(p) => p,
    };
    validate(&document, &profile)
}

/// A profile document checked against the meta-schema `schema.v1`, then loaded.
pub open spec fn profile_document_spec(source: Seq<u8>) -> Result<SProfile, SError> {
    match load_profile_spec("schema.v1"@) {
        Err(e) => Err(e),
        Ok(meta) => match document_of(source) {
            Err(e) => Err(e),
            Ok(blocks) => match validate_spec(SDocument { blocks }, meta) {
                Err(e) => Err(e),
                Ok(_) => load_source_spec(source),
            },
        },
    }
}

/// Load and validate a schema profile document against the meta-schema.
pub fn validate_profile_document(source: &str) -> (r: Result<SchemaProfile, BsolError>)
    requires
        !document_unspannable_from(source.spec_bytes(), 0),
    ensures
        profile_res(r) == profile_document_spec(source.spec_bytes()),
{
    let meta = match load_profile("schema.v1") {
        Err(e) => {
            return Err(e);
        },
        Ok(m) => m,
    };
    let document = match parse_bsol_document(source) {
        Err(e) => {
            return Err(e);
        },
        Ok(d) => d,
    };
    match validate(&document, &meta) {
        Err(e) => {
            return Err(e);
        },
        Ok(_) => {},
    }
    load_profile_from_source(source)
}

/// Validation of `d` against the embedded profile `name`.
pub open spec fn embedded_validation_spec(d: SDocument, name: Seq<char>) -> Result<SVDoc, SError> {
    match load_profile_spec(name) {
        Err(e) => Err(e),
        Ok(p) => validate_spec(d, p),
    }
}

/// What an observer hears of one phase: its start, then its end.
pub open spec fn heard(phase: &str, res: PhaseResult) -> Seq<PhaseEvent> {
    seq![PhaseEvent::Start(phase@), PhaseEvent::End(phase@, res)]
}

/// The outcome reported for a result.
pub open spec fn outcome_for(r: Result<SVDoc, SError>) -> PhaseResult {
    if r is Ok {
        PhaseResult::Success
    } else {
        PhaseResult::Failure
    }
}

/// What analysing `d` under `profile` gives, `r`, and what the observer hears, `ev`, for some
/// answers of the source and of the checks: the imports are collected as [`collect_spec`] says
/// and their error is the result; else the embedded profile of the same name is loaded and its
/// error is the result; else the document is validated against it with the checks, as
/// [`validate_checked`] says.  The phases heard are those run, each with its outcome.
pub open spec fn analysis_outcome<S: SchemaSource, V: RuleValidators>(
    d: SDocument,
    profile: SProfile,
    base_dir: Seq<char>,
    source: &S,
    registry: &V,
    r: Result<SVDoc, SError>,
    ev: Seq<PhaseEvent>,
) -> bool {
    exists|flog: FetchLog|
        answered_by(flog, source, base_dir) && match #[trigger] collect_spec(
            Map::empty(),
            profile,
            profile.name,
            Seq::<SImport>::empty(),
            0,
            flog,
            IMPORT_DEPTH as nat,
        ) {
            None => false,
            Some((c, rest)) => rest.len() == 0 && match c {
                Err(e) => r == Err::<SVDoc, SError>(e) && ev == heard(SCHEMA_COLLECT, PhaseResult::Failure),
                Ok(_) => match load_profile_spec(profile.name) {
                    Err(e) => r == Err::<SVDoc, SError>(e) && ev == heard(SCHEMA_COLLECT, PhaseResult::Success)
                        + heard(SCHEMA_RESOLVE_FILE, PhaseResult::Success),
                    Ok(p) => (exists|clog: CheckLog|
                        answered_in_turn(clog, Some(registry)) && #[trigger] validate_checked(d, p, true, clog)
                            == Some((r, Seq::<(SVBlock, Option<SError>)>::empty()))) && ev == heard(
                        SCHEMA_COLLECT,
                        PhaseResult::Success,
                    ) + heard(SCHEMA_RESOLVE_FILE, PhaseResult::Success) + heard(SCHEMA_VALIDATE, outcome_for(r))
                        + if r is Ok {
                        heard(SCHEMA_SEMANTIC, PhaseResult::Success) + heard(SCHEMA_SNAPSHOT, PhaseResult::Success)
                    } else {
                        Seq::empty()
                    },
                },
            },
        }
}

/// Resolve the profile's imports from `source` (failures are reported), then validate
/// `document` against the embedded profile of the same name, running `registry`'s checks;
/// each step is reported to `observer` as a phase.
#[verifier::rlimit(80)]
#[verifier::spinoff_prover]
pub fn analyze_document_with<O: PipelineObserver + ?Sized, S: SchemaSource, V: RuleValidators>(
    observer: &mut O,
    document: &BsolDocument,
    profile: SchemaProfile,
    base_dir: &str,
    source: &S,
    registry: &V,
) -> (r: Result<ValidatedDocument, BsolError>)
    ensures
        r matches Ok(d) ==> (load_profile_spec(profile.name@) matches Ok(p) && validate_spec(
            document@,
            p,
        ) == Ok::<SVDoc, SError>(d@)),
        profile.imports@.len() == 0 && load_profile_spec(profile.name@) is Err ==> r is Err,
        profile.imports@.len() == 0 && (load_profile_spec(profile.name@) matches Ok(p)
            && validate_spec(document@, p) is Err) ==> r is Err,
        profile.imports@.len() == 0 && (document.blocks@.len() == 0 || accepts_all(registry))
            ==> vd_res(r) == embedded_validation_spec(document@, profile.name@),
        r matches Ok(d) ==> forall|i: int|
            0 <= i < d.blocks@.len() ==> (#[trigger] d.blocks@[i]).raw_body is Some
                || registry.answers(view_vblock(d.blocks@[i]), None),
        exists|ev: Seq<PhaseEvent>|
            #[trigger] analysis_outcome(document@, profile@, base_dir@, source, registry, vd_res(r), ev) && (old(
                observer,
            ).records() ==> final(observer).records() && final(observer).record() == old(observer).record() + ev),
{
    let ghost pv = profile@;
    let ghost rec0 = observer.record();
    let profile_name = profile.name.clone();
    let collected = observe_phase(
        observer,
        SCHEMA_COLLECT,
        (move || -> (c: Result<SchemaCollection, BsolError>)
            ensures
                profile.imports@.len() == 0 ==> c is Ok,
                exists|log: FetchLog|
                    answered_by(log, source, base_dir@) && #[trigger] collect_spec(
                        Map::empty(),
                        profile@,
                        profile.name@,
                        Seq::<SImport>::empty(),
                        0,
                        log,
                        IMPORT_DEPTH as nat,
                    ) == Some((collection_res(c), Seq::<(SImport, Result<SProfile, SError>)>::empty())),
            { resolve_profile(profile, base_dir, source) }),
    );
    let ghost flog = choose|log: FetchLog|
        answered_by(log, source, base_dir@) && #[trigger] collect_spec(
            Map::empty(),
            pv,
            pv.name,
            Seq::<SImport>::empty(),
            0,
            log,
            IMPORT_DEPTH as nat,
        ) == Some((collection_res(collected), Seq::<(SImport, Result<SProfile, SError>)>::empty()));
    match collected {
        Err(e) => {
            proof {
                let ev = heard(SCHEMA_COLLECT, PhaseResult::Failure);
                assert(analysis_outcome(document@, pv, base_dir@, source, registry, vd_res(Err::<ValidatedDocument, BsolError>(e)), ev));
            }
            return Err(e);
        },
        Ok(_) => {},
    }
    match observe_phase(observer, SCHEMA_RESOLVE_FILE, (|| -> (u: Result<(), BsolError>)
        ensures
            u is Ok,
        { Ok(()) })) {
        Err(e) => {
            return Err(e);
        },
        Ok(()) => {},
    }
    let ghost front = heard(SCHEMA_COLLECT, PhaseResult::Success) + heard(SCHEMA_RESOLVE_FILE, PhaseResult::Success);
    proof {
        if old(observer).records() {
            assert(observer.record() =~= rec0 + front);
        }
    }
    let active = match load_profile(profile_name.as_str()) {
        Ok(p) => p,
        Err(e) => {
            proof {
                assert(analysis_outcome(document@, pv, base_dir@, source, registry, vd_res(Err::<ValidatedDocument, BsolError>(e)), front));
            }
            return Err(e);
        },
    };
    let validated = match observe_phase(
        observer,
        SCHEMA_VALIDATE,
        (|| -> (v: Result<ValidatedDocument, BsolError>)
            ensures
                v matches Ok(d) ==> validate_spec(document@, view_profile(active)) == Ok::<SVDoc, SError>(d@),
                validate_spec(document@, view_profile(active)) is Err ==> v is Err,
                document.blocks@.len() == 0 || accepts_all(registry) ==> vd_res(v) == validate_spec(document@, view_profile(active)),
                v matches Ok(d) ==> forall|i: int|
                    0 <= i < d.blocks@.len() ==> (#[trigger] d.blocks@[i]).raw_body is Some
                        || registry.answers(view_vblock(d.blocks@[i]), None),
                exists|clog: CheckLog|
                    answered_in_turn(clog, Some(registry)) && #[trigger] validate_checked(document@, view_profile(active), true, clog)
                        == Some((vd_res(v), Seq::<(SVBlock, Option<SError>)>::empty())),
            { validate_with(document, &active, registry) }),
    ) {
        Err(e) => {
            proof {
                let ev = front + heard(SCHEMA_VALIDATE, PhaseResult::Failure) + Seq::<PhaseEvent>::empty();
                assert(ev =~= front + heard(SCHEMA_VALIDATE, PhaseResult::Failure));
                if old(observer).records() {
                    assert(observer.record() =~= rec0 + ev);
                }
                assert(analysis_outcome(document@, pv, base_dir@, source, registry, vd_res(Err::<ValidatedDocument, BsolError>(e)), ev));
            }
            return Err(e);
        },
        Ok(v) => v,
    };
    match observe_phase(observer, SCHEMA_SEMANTIC, (|| -> (u: Result<(), BsolError>)
        ensures
            u is Ok,
        { Ok(()) })) {
        Err(e) => {
            return Err(e);
        },
        Ok(()) => {},
    }
    match observe_phase(observer, SCHEMA_SNAPSHOT, (|| -> (u: Result<(), BsolError>)
        ensures
            u is Ok,
        { Ok(()) })) {
        Err(e) => {
            return Err(e);
        },
        Ok(()) => {},
    }
    proof {
        let ev = front + heard(SCHEMA_VALIDATE, PhaseResult::Success) + (heard(SCHEMA_SEMANTIC, PhaseResult::Success)
            + heard(SCHEMA_SNAPSHOT, PhaseResult::Success));
        if old(observer).records() {
            assert(observer.record() =~= rec0 + ev);
        }
        assert(analysis_outcome(document@, pv, base_dir@, source, registry, vd_res(Ok::<ValidatedDocument, BsolError>(validated)), ev));
    }
    Ok(validated)
}

/// Parse `source` (reported as a phase), load the embedded profile named in `options`, then
/// [`analyze_document_with`].
#[verifier::rlimit(50)]
pub fn analyze_source_with<O: PipelineObserver + ?Sized, S: SchemaSource, V: RuleValidators>(
    observer: &mut O,
    source_text: &str,
    options: &AnalysisOptions,
    source: &S,
    registry: &V,
) -> (r: Result<ValidatedDocument, BsolError>)
    requires
        !document_unspannable_from(source_text.spec_bytes(), 0),
    ensures
        document_of(source_text.spec_bytes()) is Err ==> r is Err,
        load_profile_spec(options.profile_name@) is Err ==> r is Err,
        r matches Ok(d) ==> (document_of(source_text.spec_bytes()) matches Ok(blocks)
            && load_profile_spec(options.profile_name@) matches Ok(p)
            && load_profile_spec(p.name) matches Ok(q) && validate_spec(
            SDocument { blocks },
            q,
        ) == Ok::<SVDoc, SError>(d@)),
        r matches Ok(d) ==> forall|i: int|
            0 <= i < d.blocks@.len() ==> (#[trigger] d.blocks@[i]).raw_body is Some
                || registry.answers(view_vblock(d.blocks@[i]), None),
        document_of(source_text.spec_bytes()) matches Ok(blocks) ==> (blocks.len() == 0 || accepts_all(registry) ==> (
        load_profile_spec(options.profile_name@) matches Ok(p) ==> (p.imports.len() == 0 ==> vd_res(r)
            == embedded_validation_spec(SDocument { blocks }, p.name)))),
        match document_of(source_text.spec_bytes()) {
            Err(e) => vd_res(r) == Err::<SVDoc, SError>(e) && (old(observer).records() ==> final(observer).records()
                && final(observer).record() == old(observer).record() + heard(PARSE_SYNTAX, PhaseResult::Failure)),
            Ok(blocks) => match load_profile_spec(options.profile_name@) {
                Err(e) => vd_res(r) == Err::<SVDoc, SError>(e) && (old(observer).records() ==> final(observer).records()
                    && final(observer).record() == old(observer).record() + heard(PARSE_SYNTAX, PhaseResult::Success)),
                Ok(p) => exists|ev: Seq<PhaseEvent>|
                    #[trigger] analysis_outcome((SDocument { blocks }), p, options.base_dir@, source, registry, vd_res(r), ev)
                        && (old(observer).records() ==> final(observer).records() && final(observer).record()
                        == old(observer).record() + heard(PARSE_SYNTAX, PhaseResult::Success) + ev),
            },
        },
{
    let ghost rec0 = observer.record();
    let document = match observe_phase(
        observer,
        PARSE_SYNTAX,
        (|| -> (d: Result<BsolDocument, BsolError>)
            ensures
                doc_res(d) == document_of(source_text.spec_bytes()),
            { parse_bsol_document(source_text) }),
    ) {
        Err(e) => {
            return Err(e);
        },
        Ok(d) => d,
    };
    let profile = match load_profile(options.profile_name.as_str()) {
        Err(e) => {
            return Err(e);
        },
        Ok(p) => p,
    };
    proof {
        assert(document@ == SDocument { blocks: crate::ast::view_blocks(document.blocks@) });
        crate::ast::lemma_view_blocks(document.blocks@);
        assert(view_profile(profile).imports.len() == profile.imports@.len());
    }
    let ghost rec1 = observer.record();
    let r = analyze_document_with(observer, &document, profile, options.base_dir.as_str(), source, registry);
    proof {
        if old(observer).records() {
            let ev = choose|ev: Seq<PhaseEvent>| #[trigger] analysis_outcome(document@, view_profile(profile), options.base_dir@, source, registry, vd_res(r), ev)
                && observer.record() == rec1 + ev;
            assert(observer.record() =~= rec0 + heard(PARSE_SYNTAX, PhaseResult::Success) + ev);
        }
    }
    r
}

} // verus!
