//! Pipeline phases and the observers that are told when each starts and ends.

use vstd::prelude::*;

use crate::error::BsolError;

verus! {

/// Parse BSOL source into generic AST.
pub const PARSE_SYNTAX: &'static str = "parse.syntax";

/// Collect and resolve `import_schema` declarations.
pub const SCHEMA_COLLECT: &'static str = "schema.collect";

/// Resolve file-backed schema imports.
pub const SCHEMA_RESOLVE_FILE: &'static str = "schema.resolve.file";

/// Resolve git-backed schema imports.
pub const SCHEMA_RESOLVE_GIT: &'static str = "schema.resolve.git";

/// Resolve registry-backed schema imports.
pub const SCHEMA_RESOLVE_REGISTRY: &'static str = "schema.resolve.registry";

/// Structural validation against resolved profile.
pub const SCHEMA_VALIDATE: &'static str = "schema.validate";

/// Custom semantic validators and cross-reference rules.
pub const SCHEMA_SEMANTIC: &'static str = "schema.semantic";

/// Immutable validated document boundary.
pub const SCHEMA_SNAPSHOT: &'static str = "schema.snapshot";

/// Plan profile migration routes for a document.
pub const MIGRATE_PLAN: &'static str = "migrate.plan";

/// Apply profile migration rewrites to source text.
pub const MIGRATE_APPLY: &'static str = "migrate.apply";

/// Outcome of a pipeline phase.
#[derive(Debug, Clone, Copy, PartialEq, Eq)]
pub enum PhaseResult {
    /// The phase returned a value.
    Success,
    /// The phase returned an error.
    Failure,
}

/// A notification an observer receives.
pub ghost enum PhaseEvent {
    Start(Seq<char>),
    End(Seq<char>, PhaseResult),
}

/// Receives phase start/end notifications during analysis.
pub trait PipelineObserver {
    /// Does the observer keep a record of what it hears?  One that does not say so keeps none.
    open spec fn records(&self) -> bool {
        false
    }

    /// What the observer has heard, in order, when it keeps a record.
    open spec fn record(&self) -> Seq<PhaseEvent> {
        Seq::empty()
    }

    fn on_phase_start(&mut self, phase: &str)
        ensures
            old(self).records() ==> final(self).records() && final(self).record() == old(
                self,
            ).record().push(PhaseEvent::Start(phase@)),
    ;

    fn on_phase_end(&mut self, phase: &str, result: PhaseResult)
        ensures
            old(self).records() ==> final(self).records() && final(self).record() == old(
                self,
            ).record().push(PhaseEvent::End(phase@, result)),
    ;
}

/// No-op observer for tests and library callers.
#[derive(Debug, Default, Clone, Copy)]
pub struct NullObserver;

impl PipelineObserver for NullObserver {
    fn on_phase_start(&mut self, phase: &str) {
    }

    fn on_phase_end(&mut self, phase: &str, result: PhaseResult) {
    }
}

/// The outcome reported for a phase result.
pub open spec fn phase_outcome<T>(r: Result<T, BsolError>) -> PhaseResult {
    if r is Ok {
        PhaseResult::Success
    } else {
        PhaseResult::Failure
    }
}

/// Tell `observer` that `phase` starts, run it, tell it how the phase ended, and hand back what
/// the phase returned.
pub fn observe_phase<T, O: PipelineObserver + ?Sized, F: FnOnce() -> Result<T, BsolError>>(
    observer: &mut O,
    phase: &str,
    run: F,
) -> (r: Result<T, BsolError>)
    requires
        run.requires(()),
    ensures
        run.ensures((), r),
        old(observer).records() ==> final(observer).records() && final(observer).record() == old(
            observer,
        ).record() + seq![PhaseEvent::Start(phase@), PhaseEvent::End(phase@, phase_outcome(r))],
{
    let ghost before = observer.record();
    observer.on_phase_start(phase);
    let result = run();
    let outcome = if result.is_ok() {
        PhaseResult::Success
    } else {
        PhaseResult::Failure
    };
    observer.on_phase_end(phase, outcome);
    proof {
        if old(observer).records() {
            assert(observer.record() =~= before + seq![
                PhaseEvent::Start(phase@),
                PhaseEvent::End(phase@, phase_outcome(result)),
            ]);
        }
    }
    result
}

} // verus!
