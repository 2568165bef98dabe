//! BSOL — Beskid Structured Object Language: parser, schema profiles and validation.

pub mod ast;
pub mod coerce;
pub mod compose;
pub mod copy;
pub mod decode;
pub mod diagnostics;
pub mod embedded;
pub mod error;
pub mod grammar;
pub mod loader;
pub mod migrate;
pub mod numbers;
pub mod observer;
pub mod parser;
pub mod profile_spec;
pub mod resolver;
pub mod scanner;
pub mod schema;
pub mod schema_view;
pub mod semantic;
pub mod session;
pub mod sources;
pub mod text;
pub mod validate;
pub mod validate_field;
pub mod validate_spec;
pub mod validated;
pub mod value_type;

pub use ast::{
    BsolAssignment, BsolAttribute, BsolAttributeArg, BsolBlock, BsolBracketList, BsolDocument,
    BsolInlineMap, BsolItem, BsolListItem, BsolMapEntry, BsolQuotedString, BsolRef, BsolSpan,
    BsolValue,
};
pub use compose::{compose_profile, merge_profiles, validate_extends_dag};
pub use embedded::{embedded_profile_names, load_profile};
pub use error::BsolError;
pub use loader::{load_profile_from_document, load_profile_from_source, parse_profile_document};
pub use migrate::{apply_migration, migrate_document, plan_migration, MigrationPlan, MigrationRoute};
pub use observer::{observe_phase, NullObserver, PhaseResult, PipelineObserver};
pub use parser::{has_unspannable_block_start, parse_bsol_document};
pub use schema::{
    BlockRule, Cardinality, ExtendSpec, FieldConstraints, FieldRule, ImportSchemaSpec,
    ImportSource, KindMatch, LabelRequirement, MigrationRewrite, MigrationSpec,
    MigrationWhenClause, RuleScope, SchemaProfile, ValueType, VariantRule,
};
pub use resolver::{
    activate_profile, load_fetched_profile, parse_pckg_shorthand, resolve_active_profile,
    resolve_profile, SchemaCollection, SchemaSource,
};
pub use semantic::resolve_references;
pub use session::{
    analyze_document_with, analyze_source_with, analyze_with_profile, validate_profile_document,
    AnalysisOptions,
};
pub use sources::{CompositeSchemaSource, FileSchemaSource, PckgSchemaSource};
pub use validate::{validate, validate_with, NoValidators, RuleValidators};
pub use validated::{ValidatedBlock, ValidatedBlockLite, ValidatedDocument, ValidatedValue};
