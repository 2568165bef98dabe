//! Mathematical model of schema profiles: the same shape with texts as character sequences.

use vstd::prelude::*;

use crate::ast::BsolSpan;
use crate::schema::{
    BlockRule, Cardinality, ExtendSpec, FieldConstraints, FieldRule, ImportSchemaSpec,
    ImportSource, KindMatch, LabelRequirement, MigrationRewrite, MigrationSpec,
    MigrationWhenClause, RuleScope, SchemaProfile, ValueType, VariantRule,
};

verus! {

pub ghost enum SVType {
    Quoted,
    Ident,
    U32,
    I64,
    F64,
    Bool,
    Path,
    List,
    ListOf(Seq<SVType>),
    MapOf { key: Box<SVType>, value: Box<SVType> },
    RefTo(Seq<char>),
    Inline(Seq<char>),
    EnumOrQuoted(Seq<Seq<char>>),
    Loose,
}

pub ghost enum SKind {
    Keyword(Seq<char>),
    FreeIdent(Seq<Seq<char>>),
    Keywords(Seq<Seq<char>>),
}

pub ghost struct SConstraints {
    pub default_value: Option<Seq<char>>,
    pub min: Option<i64>,
    pub max: Option<i64>,
    pub pattern: Option<Seq<char>>,
    pub required_if: Seq<(Seq<char>, Seq<char>)>,
    pub forbid_if: Seq<(Seq<char>, Seq<char>)>,
}

pub ghost struct SField {
    pub value_type: SVType,
    pub required: bool,
    pub list_values: Option<Seq<Seq<char>>>,
    pub constraints: SConstraints,
    pub allowed_attrs: Seq<Seq<char>>,
}

pub ghost struct SVariant {
    pub name: Seq<char>,
    pub require: Seq<Seq<char>>,
    pub forbid: Seq<Seq<char>>,
}

pub ghost struct SRule {
    pub id: Seq<char>,
    pub scope: RuleScope,
    pub kind_match: SKind,
    pub label: LabelRequirement,
    pub cardinality: Cardinality,
    pub fields: Seq<(Seq<char>, SField)>,
    pub nested: Seq<(Seq<char>, SRule)>,
    pub nested_order: Seq<Seq<char>>,
    pub allow_extra_fields: bool,
    pub allow_extra_nested: bool,
    pub schemaless: bool,
    pub extends: Option<Seq<char>>,
    pub mixes: Seq<Seq<char>>,
    pub variants: Seq<SVariant>,
    pub allowed_attrs: Seq<Seq<char>>,
}

pub ghost enum SImportSource {
    File { path: Seq<char> },
    Git { url: Seq<char>, rev: Seq<char>, path: Seq<char> },
    Registry { package: Seq<char>, version: Seq<char>, path: Seq<char> },
    PckgShorthand { reference: Seq<char> },
}

pub ghost struct SImport {
    pub name: Seq<char>,
    pub alias: Option<Seq<char>>,
    pub from: SImportSource,
    pub span: BsolSpan,
}

pub ghost struct SExtend {
    pub base: Seq<char>,
    pub rules: Seq<(Seq<char>, SRule)>,
    pub span: BsolSpan,
}

pub ghost struct SWhen {
    pub block_kind: Option<Seq<char>>,
    pub field: Option<Seq<char>>,
    pub field_value: Option<Seq<char>>,
    pub missing_field: Option<Seq<char>>,
}

pub ghost enum SRewrite {
    AddField { key: Seq<char>, value: Seq<char> },
    RenameField { from: Seq<char>, to: Seq<char> },
    ReplaceValue { from: Seq<char>, to: Seq<char> },
}

pub ghost struct SMigration {
    pub from: Seq<char>,
    pub detect: Seq<(Seq<char>, Seq<char>)>,
    pub when_clauses: Seq<SWhen>,
    pub rewrites: Seq<SRewrite>,
    pub span: BsolSpan,
}

pub ghost struct SProfile {
    pub name: Seq<char>,
    pub version: u32,
    pub rules: Seq<(Seq<char>, SRule)>,
    pub top_level_order: Seq<Seq<char>>,
    pub imports: Seq<SImport>,
    pub extends: Seq<SExtend>,
    pub migrations: Seq<SMigration>,
}

pub open spec fn texts(s: Seq<String>) -> Seq<Seq<char>> {
    s.map_values(|x: String| x@)
}

pub open spec fn text_pairs(s: Seq<(String, String)>) -> Seq<(Seq<char>, Seq<char>)> {
    s.map_values(|p: (String, String)| (p.0@, p.1@))
}

pub open spec fn opt_text(o: Option<String>) -> Option<Seq<char>> {
    match o {
        Some(s) => Some(s@),
        None => None,
    }
}

pub open spec fn view_vtype(t: ValueType) -> SVType
    decreases t,
{
    match t {
        ValueType::Quoted => SVType::Quoted,
        ValueType::Ident => SVType::Ident,
        ValueType::U32 => SVType::U32,
        ValueType::I64 => SVType::I64,
        ValueType::F64 => SVType::F64,
        ValueType::Bool => SVType::Bool,
        ValueType::Path => SVType::Path,
        ValueType::List => SVType::List,
        ValueType::ListOf(v) => SVType::ListOf(view_vtypes(v@)),
        ValueType::MapOf { key, value } => SVType::MapOf {
            key: Box::new(view_vtype(*key)),
            value: Box::new(view_vtype(*value)),
        },
        ValueType::RefTo(r) => SVType::RefTo(r@),
        ValueType::Inline(r) => SVType::Inline(r@),
        ValueType::EnumOrQuoted(v) => SVType::EnumOrQuoted(texts(v@)),
        ValueType::Loose => SVType::Loose,
    }
}

pub open spec fn view_vtypes(s: Seq<ValueType>) -> Seq<SVType>
    decreases s,
{
    if s.len() == 0 {
        Seq::empty()
    } else {
        seq![view_vtype(s[0])] + view_vtypes(s.subrange(1, s.len() as int))
    }
}

pub open spec fn view_kind(k: KindMatch) -> SKind {
    match k {
        KindMatch::Keyword(s) => SKind::Keyword(s@),
        KindMatch::FreeIdent { except } => SKind::FreeIdent(texts(except@)),
        KindMatch::Keywords(v) => SKind::Keywords(texts(v@)),
    }
}

pub open spec fn view_constraints(c: FieldConstraints) -> SConstraints {
    SConstraints {
        default_value: opt_text(c.default_value),
        min: c.min,
        max: c.max,
        pattern: opt_text(c.pattern),
        required_if: text_pairs(c.required_if@),
        forbid_if: text_pairs(c.forbid_if@),
    }
}

pub open spec fn opt_texts(o: Option<Vec<String>>) -> Option<Seq<Seq<char>>> {
    match o {
        Some(v) => Some(texts(v@)),
        None => None,
    }
}

pub open spec fn view_field(f: FieldRule) -> SField {
    SField {
        value_type: view_vtype(f.value_type),
        required: f.required,
        list_values: opt_texts(f.list_values),
        constraints: view_constraints(f.constraints),
        allowed_attrs: texts(f.allowed_attrs@),
    }
}

pub open spec fn view_fields(s: Seq<(String, FieldRule)>) -> Seq<(Seq<char>, SField)> {
    s.map_values(|p: (String, FieldRule)| (p.0@, view_field(p.1)))
}

pub open spec fn view_variant(v: VariantRule) -> SVariant {
    SVariant { name: v.name@, require: texts(v.require@), forbid: texts(v.forbid@) }
}

pub open spec fn view_variants(s: Seq<VariantRule>) -> Seq<SVariant> {
    s.map_values(|v: VariantRule| view_variant(v))
}

pub open spec fn view_rule(r: BlockRule) -> SRule
    decreases r,
{
    SRule {
        id: r.id@,
        scope: r.scope,
        kind_match: view_kind(r.kind_match),
        label: r.label,
        cardinality: r.cardinality,
        fields: view_fields(r.fields@),
        nested: view_rules(r.nested@),
        nested_order: texts(r.nested_order@),
        allow_extra_fields: r.allow_extra_fields,
        allow_extra_nested: r.allow_extra_nested,
        schemaless: r.schemaless,
        extends: opt_text(r.extends),
        mixes: texts(r.mixes@),
        variants: view_variants(r.variants@),
        allowed_attrs: texts(r.allowed_attrs@),
    }
}

pub open spec fn view_rules(s: Seq<(String, BlockRule)>) -> Seq<(Seq<char>, SRule)>
    decreases s,
{
    if s.len() == 0 {
        Seq::empty()
    } else {
        seq![(s[0].0@, view_rule(s[0].1))] + view_rules(s.subrange(1, s.len() as int))
    }
}

pub open spec fn view_import_source(s: ImportSource) -> SImportSource {
    match s {
        ImportSource::File { path } => SImportSource::File { path: path@ },
        ImportSource::Git { url, rev, path } => SImportSource::Git {
            url: url@,
            rev: rev@,
            path: path@,
        },
        ImportSource::Registry { package, version, path } => SImportSource::Registry {
            package: package@,
            version: version@,
            path: path@,
        },
        ImportSource::PckgShorthand { reference } => SImportSource::PckgShorthand {
            reference: reference@,
        },
    }
}

pub open spec fn view_import(i: ImportSchemaSpec) -> SImport {
    SImport {
        name: i.name@,
        alias: opt_text(i.alias),
        from: view_import_source(i.from),
        span: i.span,
    }
}

pub open spec fn view_extend(e: ExtendSpec) -> SExtend {
    SExtend { base: e.base@, rules: view_rules(e.rules@), span: e.span }
}

pub open spec fn view_when(w: MigrationWhenClause) -> SWhen {
    SWhen {
        block_kind: opt_text(w.block_kind),
        field: opt_text(w.field),
        field_value: opt_text(w.field_value),
        missing_field: opt_text(w.missing_field),
    }
}

pub open spec fn view_rewrite(r: MigrationRewrite) -> SRewrite {
    match r {
        MigrationRewrite::AddField { key, value } => SRewrite::AddField {
            key: key@,
            value: value@,
        },
        MigrationRewrite::RenameField { from, to } => SRewrite::RenameField {
            from: from@,
            to: to@,
        },
        MigrationRewrite::ReplaceValue { from, to } => SRewrite::ReplaceValue {
            from: from@,
            to: to@,
        },
    }
}

pub open spec fn view_whens(s: Seq<MigrationWhenClause>) -> Seq<SWhen> {
    s.map_values(|w: MigrationWhenClause| view_when(w))
}

pub open spec fn view_rewrites(s: Seq<MigrationRewrite>) -> Seq<SRewrite> {
    s.map_values(|r: MigrationRewrite| view_rewrite(r))
}

pub open spec fn view_migration(m: MigrationSpec) -> SMigration {
    SMigration {
        from: m.from@,
        detect: text_pairs(m.detect@),
        when_clauses: view_whens(m.when_clauses@),
        rewrites: view_rewrites(m.rewrites@),
        span: m.span,
    }
}

pub open spec fn view_imports(s: Seq<ImportSchemaSpec>) -> Seq<SImport> {
    s.map_values(|i: ImportSchemaSpec| view_import(i))
}

pub open spec fn view_extends(s: Seq<ExtendSpec>) -> Seq<SExtend> {
    s.map_values(|e: ExtendSpec| view_extend(e))
}

pub open spec fn view_migrations(s: Seq<MigrationSpec>) -> Seq<SMigration> {
    s.map_values(|m: MigrationSpec| view_migration(m))
}

pub open spec fn view_profile(p: SchemaProfile) -> SProfile {
    SProfile {
        name: p.name@,
        version: p.version,
        rules: view_rules(p.rules@),
        top_level_order: texts(p.top_level_order@),
        imports: view_imports(p.imports@),
        extends: view_extends(p.extends@),
        migrations: view_migrations(p.migrations@),
    }
}

pub broadcast proof fn lemma_view_rules(s: Seq<(String, BlockRule)>)
    ensures
        #[trigger] view_rules(s).len() == s.len(),
        forall|i: int|
            0 <= i < s.len() ==> #[trigger] view_rules(s)[i] == (s[i].0@, view_rule(s[i].1)),
    decreases s.len(),
{
    if s.len() > 0 {
        lemma_view_rules(s.subrange(1, s.len() as int));
        assert forall|i: int| 0 <= i < s.len() implies #[trigger] view_rules(s)[i] == (
            s[i].0@,
            view_rule(s[i].1),
        ) by {
            if i > 0 {
                assert(s.subrange(1, s.len() as int)[i - 1] == s[i]);
            }
        }
    }
}

pub broadcast proof fn lemma_view_vtypes(s: Seq<ValueType>)
    ensures
        #[trigger] view_vtypes(s).len() == s.len(),
        forall|i: int| 0 <= i < s.len() ==> #[trigger] view_vtypes(s)[i] == view_vtype(s[i]),
    decreases s.len(),
{
    if s.len() > 0 {
        lemma_view_vtypes(s.subrange(1, s.len() as int));
        assert forall|i: int| 0 <= i < s.len() implies #[trigger] view_vtypes(s)[i] == view_vtype(
            s[i],
        ) by {
            if i > 0 {
                assert(s.subrange(1, s.len() as int)[i - 1] == s[i]);
            }
        }
    }
}

pub broadcast group group_schema_views {
    lemma_view_rules,
    lemma_view_vtypes,
}

/// The view of a pushed rule list.
pub proof fn lemma_view_rules_push(s: Seq<(String, BlockRule)>, x: (String, BlockRule))
    ensures
        view_rules(s.push(x)) == view_rules(s).push((x.0@, view_rule(x.1))),
{
    broadcast use group_schema_views;

    assert(view_rules(s.push(x)) =~= view_rules(s).push((x.0@, view_rule(x.1))));
}

/// The view of a rule list with one entry replaced.
pub proof fn lemma_view_rules_update(s: Seq<(String, BlockRule)>, i: int, x: (String, BlockRule))
    requires
        0 <= i < s.len(),
    ensures
        view_rules(s.update(i, x)) == view_rules(s).update(i, (x.0@, view_rule(x.1))),
{
    broadcast use group_schema_views;

    assert(view_rules(s.update(i, x)) =~= view_rules(s).update(i, (x.0@, view_rule(x.1))));
}

/// The view of a pushed type list.
pub proof fn lemma_view_vtypes_push(s: Seq<ValueType>, x: ValueType)
    ensures
        view_vtypes(s.push(x)) == view_vtypes(s).push(view_vtype(x)),
{
    broadcast use group_schema_views;

    assert(view_vtypes(s.push(x)) =~= view_vtypes(s).push(view_vtype(x)));
}

impl View for SchemaProfile {
    type V = SProfile;

    open spec fn view(&self) -> SProfile {
        view_profile(*self)
    }
}

impl View for BlockRule {
    type V = SRule;

    open spec fn view(&self) -> SRule {
        view_rule(*self)
    }
}

impl View for FieldRule {
    type V = SField;

    open spec fn view(&self) -> SField {
        view_field(*self)
    }
}

impl View for ValueType {
    type V = SVType;

    open spec fn view(&self) -> SVType {
        view_vtype(*self)
    }
}

} // verus!
