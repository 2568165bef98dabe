//! Copies of schema values that keep their model.

use vstd::prelude::*;

use crate::ast::{
    lemma_view_args_push, lemma_view_attrs_push, lemma_view_entries_push, lemma_view_items_push,
    lemma_view_list_items_push, view_args, view_attrs, view_entries, view_items, view_list_items,
    BsolAssignment, BsolAttribute, BsolAttributeArg, BsolBlock, BsolBracketList, BsolInlineMap,
    BsolItem, BsolListItem, BsolMapEntry, BsolQuotedString, BsolRef, BsolValue,
};
use crate::schema::{
    BlockRule, ExtendSpec, FieldConstraints, FieldRule, ImportSchemaSpec, ImportSource, KindMatch,
    MigrationRewrite, MigrationSpec, MigrationWhenClause, SchemaProfile, ValueType, VariantRule,
};
use crate::schema_view::{
    lemma_view_rules_push, lemma_view_vtypes_push, opt_text, text_pairs, texts, view_extend,
    view_extends, view_field, view_fields, view_import, view_import_source, view_imports,
    view_kind, view_migration, view_migrations, view_profile, view_rewrite, view_rewrites,
    view_rule, view_rules, view_variant, view_variants, view_vtype, view_vtypes, view_when,
    view_whens, SRule,
};

verus! {

broadcast use crate::schema_view::group_schema_views;

pub fn copy_opt_text(s: &Option<String>) -> (r: Option<String>)
    ensures
        opt_text(r) == opt_text(*s),
{
    match s {
        Some(x) => Some(x.clone()),
        None => None,
    }
}

pub fn copy_texts(s: &Vec<String>) -> (r: Vec<String>)
    ensures
        texts(r@) == texts(s@),
{
    let mut out: Vec<String> = Vec::new();
    let mut i: usize = 0;
    while i < s.len()
        invariant
            i <= s@.len(),
            out@.len() == i,
            forall|j: int| 0 <= j < i ==> (#[trigger] out@[j])@ == s@[j]@,
        decreases s.len() - i,
    {
        out.push(s[i].clone());
        i = i + 1;
    }
    proof {
        assert(texts(out@) =~= texts(s@));
    }
    out
}

pub fn copy_pairs(s: &Vec<(String, String)>) -> (r: Vec<(String, String)>)
    ensures
        text_pairs(r@) == text_pairs(s@),
{
    let mut out: Vec<(String, String)> = Vec::new();
    let mut i: usize = 0;
    while i < s.len()
        invariant
            i <= s@.len(),
            out@.len() == i,
            forall|j: int| 0 <= j < i ==> (#[trigger] out@[j]).0@ == s@[j].0@ && out@[j].1@ == s@[j].1@,
        decreases s.len() - i,
    {
        out.push((s[i].0.clone(), s[i].1.clone()));
        i = i + 1;
    }
    proof {
        assert(text_pairs(out@) =~= text_pairs(s@));
    }
    out
}

pub fn copy_vtype(t: &ValueType) -> (r: ValueType)
    ensures
        view_vtype(r) == view_vtype(*t),
    decreases t,
{
    match t {
        ValueType::Quoted => ValueType::Quoted,
        ValueType::Ident => ValueType::Ident,
        ValueType::U32 => ValueType::U32,
        ValueType::I64 => ValueType::I64,
        ValueType::F64 => ValueType::F64,
        ValueType::Bool => ValueType::Bool,
        ValueType::Path => ValueType::Path,
        ValueType::List => ValueType::List,
        ValueType::Loose => ValueType::Loose,
        ValueType::RefTo(s) => ValueType::RefTo(s.clone()),
        ValueType::Inline(s) => ValueType::Inline(s.clone()),
        ValueType::EnumOrQuoted(v) => ValueType::EnumOrQuoted(copy_texts(v)),
        ValueType::MapOf { key, value } => {
            let k = copy_vtype(key);
            let v = copy_vtype(value);
            ValueType::MapOf { key: Box::new(k), value: Box::new(v) }
        },
        ValueType::ListOf(v) => {
            let mut out: Vec<ValueType> = Vec::new();
            let mut i: usize = 0;
            while i < v.len()
                invariant
                    *t == ValueType::ListOf(*v),
                    i <= v@.len(),
                    view_vtypes(out@) == view_vtypes(v@.subrange(0, i as int)),
                decreases v.len() - i,
            {
                proof {
                    assert(decreases_to!(*t => (*t)->ListOf_0));
                    assert((*t)->ListOf_0 == *v);
                    assert(decreases_to!(*v => v@));
                    assert(decreases_to!(v@ => v@[i as int]));
                }
                let x = copy_vtype(&v[i]);
                proof {
                    lemma_view_vtypes_push(out@, x);
                    lemma_view_vtypes_push(v@.subrange(0, i as int), v@[i as int]);
                    assert(v@.subrange(0, i as int).push(v@[i as int]) =~= v@.subrange(0, i + 1));
                }
                out.push(x);
                i = i + 1;
            }
            proof {
                assert(v@.subrange(0, i as int) =~= v@);
            }
            ValueType::ListOf(out)
        },
    }
}

pub fn copy_kind(k: &KindMatch) -> (r: KindMatch)
    ensures
        view_kind(r) == view_kind(*k),
{
    match k {
        KindMatch::Keyword(s) => KindMatch::Keyword(s.clone()),
        KindMatch::FreeIdent { except } => KindMatch::FreeIdent { except: copy_texts(except) },
        KindMatch::Keywords(v) => KindMatch::Keywords(copy_texts(v)),
    }
}

pub fn copy_field(f: &FieldRule) -> (r: FieldRule)
    ensures
        view_field(r) == view_field(*f),
{
    let list_values = match &f.list_values {
        Some(v) => Some(copy_texts(v)),
        None => None,
    };
    FieldRule {
        value_type: copy_vtype(&f.value_type),
        required: f.required,
        list_values,
        constraints: FieldConstraints {
            default_value: copy_opt_text(&f.constraints.default_value),
            min: f.constraints.min,
            max: f.constraints.max,
            pattern: copy_opt_text(&f.constraints.pattern),
            required_if: copy_pairs(&f.constraints.required_if),
            forbid_if: copy_pairs(&f.constraints.forbid_if),
        },
        allowed_attrs: copy_texts(&f.allowed_attrs),
    }
}

pub fn copy_fields(s: &Vec<(String, FieldRule)>) -> (r: Vec<(String, FieldRule)>)
    ensures
        view_fields(r@) == view_fields(s@),
{
    let mut out: Vec<(String, FieldRule)> = Vec::new();
    let mut i: usize = 0;
    while i < s.len()
        invariant
            i <= s@.len(),
            out@.len() == i,
            forall|j: int| 0 <= j < i ==> (#[trigger] out@[j]).0@ == s@[j].0@ && view_field(out@[j].1) == view_field(s@[j].1),
        decreases s.len() - i,
    {
        out.push((s[i].0.clone(), copy_field(&s[i].1)));
        i = i + 1;
    }
    proof {
        assert(view_fields(out@) =~= view_fields(s@));
    }
    out
}

pub fn copy_variants(s: &Vec<VariantRule>) -> (r: Vec<VariantRule>)
    ensures
        view_variants(r@) == view_variants(s@),
{
    let mut out: Vec<VariantRule> = Vec::new();
    let mut i: usize = 0;
    while i < s.len()
        invariant
            i <= s@.len(),
            out@.len() == i,
            forall|j: int| 0 <= j < i ==> view_variant(#[trigger] out@[j]) == view_variant(s@[j]),
        decreases s.len() - i,
    {
        out.push(VariantRule { name: s[i].name.clone(), require: copy_texts(&s[i].require), forbid: copy_texts(&s[i].forbid) });
        i = i + 1;
    }
    proof {
        assert(view_variants(out@) =~= view_variants(s@));
    }
    out
}

pub fn copy_rule(r: &BlockRule) -> (c: BlockRule)
    ensures
        view_rule(c) == view_rule(*r),
    decreases r,
{
    let mut nested: Vec<(String, BlockRule)> = Vec::new();
    let mut i: usize = 0;
    while i < r.nested.len()
        invariant
            i <= r.nested@.len(),
            view_rules(nested@) == view_rules(r.nested@.subrange(0, i as int)),
        decreases r.nested.len() - i,
    {
        proof {
            assert(decreases_to!(r => r.nested));
        }
        let x = copy_rule(&r.nested[i].1);
        let e = (r.nested[i].0.clone(), x);
        proof {
            lemma_view_rules_push(nested@, e);
            lemma_view_rules_push(r.nested@.subrange(0, i as int), r.nested@[i as int]);
            assert(r.nested@.subrange(0, i as int).push(r.nested@[i as int]) =~= r.nested@.subrange(0, i + 1));
        }
        nested.push(e);
        i = i + 1;
    }
    proof {
        assert(r.nested@.subrange(0, i as int) =~= r.nested@);
    }
    BlockRule {
        id: r.id.clone(),
        scope: r.scope,
        kind_match: copy_kind(&r.kind_match),
        label: r.label,
        cardinality: r.cardinality,
        fields: copy_fields(&r.fields),
        nested,
        nested_order: copy_texts(&r.nested_order),
        allow_extra_fields: r.allow_extra_fields,
        allow_extra_nested: r.allow_extra_nested,
        schemaless: r.schemaless,
        extends: copy_opt_text(&r.extends),
        mixes: copy_texts(&r.mixes),
        variants: copy_variants(&r.variants),
        allowed_attrs: copy_texts(&r.allowed_attrs),
    }
}

pub fn copy_rules(s: &Vec<(String, BlockRule)>) -> (r: Vec<(String, BlockRule)>)
    ensures
        view_rules(r@) == view_rules(s@),
{
    let mut out: Vec<(String, BlockRule)> = Vec::new();
    let mut i: usize = 0;
    while i < s.len()
        invariant
            i <= s@.len(),
            view_rules(out@) == view_rules(s@.subrange(0, i as int)),
        decreases s.len() - i,
    {
        let e = (s[i].0.clone(), copy_rule(&s[i].1));
        proof {
            lemma_view_rules_push(out@, e);
            lemma_view_rules_push(s@.subrange(0, i as int), s@[i as int]);
            assert(s@.subrange(0, i as int).push(s@[i as int]) =~= s@.subrange(0, i + 1));
        }
        out.push(e);
        i = i + 1;
    }
    proof {
        assert(s@.subrange(0, i as int) =~= s@);
    }
    out
}

pub fn copy_import_source(s: &ImportSource) -> (r: ImportSource)
    ensures
        view_import_source(r) == view_import_source(*s),
{
    match s {
        ImportSource::File { path } => ImportSource::File { path: path.clone() },
        ImportSource::Git { url, rev, path } => ImportSource::Git {
            url: url.clone(),
            rev: rev.clone(),
            path: path.clone(),
        },
        ImportSource::Registry { package, version, path } => ImportSource::Registry {
            package: package.clone(),
            version: version.clone(),
            path: path.clone(),
        },
        ImportSource::PckgShorthand { reference } => ImportSource::PckgShorthand {
            reference: reference.clone(),
        },
    }
}

pub fn copy_import(i: &ImportSchemaSpec) -> (r: ImportSchemaSpec)
    ensures
        view_import(r) == view_import(*i),
{
    ImportSchemaSpec {
        name: i.name.clone(),
        alias: copy_opt_text(&i.alias),
        from: copy_import_source(&i.from),
        span: i.span,
    }
}

pub fn copy_imports(s: &Vec<ImportSchemaSpec>) -> (r: Vec<ImportSchemaSpec>)
    ensures
        view_imports(r@) == view_imports(s@),
{
    let mut out: Vec<ImportSchemaSpec> = Vec::new();
    let mut i: usize = 0;
    while i < s.len()
        invariant
            i <= s@.len(),
            out@.len() == i,
            forall|j: int| 0 <= j < i ==> view_import(#[trigger] out@[j]) == view_import(s@[j]),
        decreases s.len() - i,
    {
        out.push(copy_import(&s[i]));
        i = i + 1;
    }
    proof {
        assert(view_imports(out@) =~= view_imports(s@));
    }
    out
}

pub fn copy_extend(e: &ExtendSpec) -> (r: ExtendSpec)
    ensures
        view_extend(r) == view_extend(*e),
{
    ExtendSpec { base: e.base.clone(), rules: copy_rules(&e.rules), span: e.span }
}

pub fn copy_extends(s: &Vec<ExtendSpec>) -> (r: Vec<ExtendSpec>)
    ensures
        view_extends(r@) == view_extends(s@),
{
    let mut out: Vec<ExtendSpec> = Vec::new();
    let mut i: usize = 0;
    while i < s.len()
        invariant
            i <= s@.len(),
            out@.len() == i,
            forall|j: int| 0 <= j < i ==> view_extend(#[trigger] out@[j]) == view_extend(s@[j]),
        decreases s.len() - i,
    {
        out.push(copy_extend(&s[i]));
        i = i + 1;
    }
    proof {
        assert(view_extends(out@) =~= view_extends(s@));
    }
    out
}

pub fn copy_when(w: &MigrationWhenClause) -> (r: MigrationWhenClause)
    ensures
        view_when(r) == view_when(*w),
{
    MigrationWhenClause {
        block_kind: copy_opt_text(&w.block_kind),
        field: copy_opt_text(&w.field),
        field_value: copy_opt_text(&w.field_value),
        missing_field: copy_opt_text(&w.missing_field),
    }
}

pub fn copy_rewrite(w: &MigrationRewrite) -> (r: MigrationRewrite)
    ensures
        view_rewrite(r) == view_rewrite(*w),
{
    match w {
        MigrationRewrite::AddField { key, value } => MigrationRewrite::AddField {
            key: key.clone(),
            value: value.clone(),
        },
        MigrationRewrite::RenameField { from, to } => MigrationRewrite::RenameField {
            from: from.clone(),
            to: to.clone(),
        },
        MigrationRewrite::ReplaceValue { from, to } => MigrationRewrite::ReplaceValue {
            from: from.clone(),
            to: to.clone(),
        },
    }
}

pub fn copy_migration(m: &MigrationSpec) -> (r: MigrationSpec)
    ensures
        view_migration(r) == view_migration(*m),
{
    let mut whens: Vec<MigrationWhenClause> = Vec::new();
    let mut i: usize = 0;
    while i < m.when_clauses.len()
        invariant
            i <= m.when_clauses@.len(),
            whens@.len() == i,
            forall|j: int| 0 <= j < i ==> view_when(#[trigger] whens@[j]) == view_when(m.when_clauses@[j]),
        decreases m.when_clauses.len() - i,
    {
        whens.push(copy_when(&m.when_clauses[i]));
        i = i + 1;
    }
    let mut rewrites: Vec<MigrationRewrite> = Vec::new();
    let mut k: usize = 0;
    while k < m.rewrites.len()
        invariant
            k <= m.rewrites@.len(),
            rewrites@.len() == k,
            forall|j: int| 0 <= j < k ==> view_rewrite(#[trigger] rewrites@[j]) == view_rewrite(m.rewrites@[j]),
        decreases m.rewrites.len() - k,
    {
        rewrites.push(copy_rewrite(&m.rewrites[k]));
        k = k + 1;
    }
    proof {
        assert(view_whens(whens@) =~= view_whens(m.when_clauses@));
        assert(view_rewrites(rewrites@) =~= view_rewrites(m.rewrites@));
    }
    MigrationSpec {
        from: m.from.clone(),
        detect: copy_pairs(&m.detect),
        when_clauses: whens,
        rewrites,
        span: m.span,
    }
}

pub fn copy_migrations(s: &Vec<MigrationSpec>) -> (r: Vec<MigrationSpec>)
    ensures
        view_migrations(r@) == view_migrations(s@),
{
    let mut out: Vec<MigrationSpec> = Vec::new();
    let mut i: usize = 0;
    while i < s.len()
        invariant
            i <= s@.len(),
            out@.len() == i,
            forall|j: int| 0 <= j < i ==> view_migration(#[trigger] out@[j]) == view_migration(s@[j]),
        decreases s.len() - i,
    {
        out.push(copy_migration(&s[i]));
        i = i + 1;
    }
    proof {
        assert(view_migrations(out@) =~= view_migrations(s@));
    }
    out
}

/// A copy of a profile with the same model.
pub fn copy_profile(p: &SchemaProfile) -> (r: SchemaProfile)
    ensures
        r@ == p@,
{
    SchemaProfile {
        name: p.name.clone(),
        version: p.version,
        rules: copy_rules(&p.rules),
        top_level_order: copy_texts(&p.top_level_order),
        imports: copy_imports(&p.imports),
        extends: copy_extends(&p.extends),
        migrations: copy_migrations(&p.migrations),
    }
}

// ---------------------------------------------------------------------------
// Syntax trees
// ---------------------------------------------------------------------------

pub fn copy_quoted(q: &BsolQuotedString) -> (r: BsolQuotedString)
    ensures
        r@ == q@,
{
    BsolQuotedString { span: q.span, value: q.value.clone() }
}

pub fn copy_ref(x: &BsolRef) -> (r: BsolRef)
    ensures
        r@ == x@,
{
    BsolRef { span: x.span, rule_kind: copy_opt_text(&x.rule_kind), label: x.label.clone() }
}

pub fn copy_value(v: &BsolValue) -> (r: BsolValue)
    ensures
        r@ == v@,
    decreases v, 0nat,
{
    match v {
        BsolValue::QuotedString(q) => BsolValue::QuotedString(copy_quoted(q)),
        BsolValue::Ident(i) => BsolValue::Ident(i.clone()),
        BsolValue::Bool(b) => BsolValue::Bool(*b),
        BsolValue::Ref(x) => BsolValue::Ref(copy_ref(x)),
        BsolValue::InlineMap(m) => {
            proof {
                assert(decreases_to!(*v => (*v)->InlineMap_0));
            }
            BsolValue::InlineMap(copy_map(m))
        },
        BsolValue::BracketList(l) => {
            let mut out: Vec<BsolListItem> = Vec::new();
            let mut i: usize = 0;
            while i < l.items.len()
                invariant
                    *v == BsolValue::BracketList(*l),
                    i <= l.items@.len(),
                    view_list_items(out@) == view_list_items(l.items@.subrange(0, i as int)),
                decreases l.items.len() - i,
            {
                proof {
                    assert(decreases_to!(*v => (*v)->BracketList_0));
                    assert((*v)->BracketList_0 == *l);
                    assert(decreases_to!(*l => l.items));
                    assert(decreases_to!(l.items => l.items@));
                    assert(decreases_to!(l.items@ => l.items@[i as int]));
                }
                let x = copy_list_item(&l.items[i]);
                proof {
                    lemma_view_list_items_push(out@, x);
                    lemma_view_list_items_push(l.items@.subrange(0, i as int), l.items@[i as int]);
                    assert(l.items@.subrange(0, i as int).push(l.items@[i as int]) =~= l.items@.subrange(0, i + 1));
                }
                out.push(x);
                i = i + 1;
            }
            proof {
                assert(l.items@.subrange(0, i as int) =~= l.items@);
            }
            BsolValue::BracketList(BsolBracketList { span: l.span, items: out })
        },
    }
}

pub fn copy_map(m: &BsolInlineMap) -> (r: BsolInlineMap)
    ensures
        r@ == m@,
    decreases m, 0nat,
{
    let mut out: Vec<BsolMapEntry> = Vec::new();
    let mut i: usize = 0;
    while i < m.entries.len()
        invariant
            i <= m.entries@.len(),
            view_entries(out@) == view_entries(m.entries@.subrange(0, i as int)),
        decreases m.entries.len() - i,
    {
        proof {
            assert(decreases_to!(*m => m.entries));
            assert(decreases_to!(m.entries => m.entries@));
            assert(decreases_to!(m.entries@ => m.entries@[i as int]));
            assert(decreases_to!(m.entries@[i as int] => m.entries@[i as int].value));
        }
        let e = BsolMapEntry {
            span: m.entries[i].span,
            key: m.entries[i].key.clone(),
            value: copy_value(&m.entries[i].value),
        };
        proof {
            lemma_view_entries_push(out@, e);
            lemma_view_entries_push(m.entries@.subrange(0, i as int), m.entries@[i as int]);
            assert(m.entries@.subrange(0, i as int).push(m.entries@[i as int]) =~= m.entries@.subrange(0, i + 1));
        }
        out.push(e);
        i = i + 1;
    }
    proof {
        assert(m.entries@.subrange(0, i as int) =~= m.entries@);
    }
    BsolInlineMap { span: m.span, entries: out }
}

pub fn copy_list_item(it: &BsolListItem) -> (r: BsolListItem)
    ensures
        r@ == it@,
    decreases it, 0nat,
{
    match it {
        BsolListItem::Default => BsolListItem::Default,
        BsolListItem::QuotedString(q) => BsolListItem::QuotedString(copy_quoted(q)),
        BsolListItem::Ident(i) => BsolListItem::Ident(i.clone()),
        BsolListItem::Bool(b) => BsolListItem::Bool(*b),
        BsolListItem::Ref(x) => BsolListItem::Ref(copy_ref(x)),
        BsolListItem::InlineMap(m) => {
            proof {
                assert(decreases_to!(*it => (*it)->InlineMap_0));
            }
            BsolListItem::InlineMap(copy_map(m))
        },
        BsolListItem::InlineBlock(b) => {
            proof {
                assert(decreases_to!(*it => (*it)->InlineBlock_0));
            }
            BsolListItem::InlineBlock(copy_block(b))
        },
    }
}

pub fn copy_attrs(s: &Vec<BsolAttribute>) -> (r: Vec<BsolAttribute>)
    ensures
        view_attrs(r@) == view_attrs(s@),
    decreases s, 1nat,
{
    let mut out: Vec<BsolAttribute> = Vec::new();
    let mut i: usize = 0;
    while i < s.len()
        invariant
            i <= s@.len(),
            view_attrs(out@) == view_attrs(s@.subrange(0, i as int)),
        decreases s.len() - i,
    {
        let a = &s[i];
        let mut args: Vec<BsolAttributeArg> = Vec::new();
        let mut j: usize = 0;
        while j < a.args.len()
            invariant
                *a == s@[i as int],
                i < s@.len(),
                j <= a.args@.len(),
                view_args(args@) == view_args(a.args@.subrange(0, j as int)),
            decreases a.args.len() - j,
        {
            proof {
                assert(decreases_to!(*s => s@));
                assert(decreases_to!(s@ => s@[i as int]));
                assert(decreases_to!(s@[i as int] => s@[i as int].args));
                assert(decreases_to!(s@[i as int].args => s@[i as int].args@));
                assert(decreases_to!(s@[i as int].args@ => s@[i as int].args@[j as int]));
                assert(decreases_to!(s@[i as int].args@[j as int] => s@[i as int].args@[j as int].value));
            }
            let g = BsolAttributeArg { key: a.args[j].key.clone(), value: copy_value(&a.args[j].value) };
            proof {
                lemma_view_args_push(args@, g);
                lemma_view_args_push(a.args@.subrange(0, j as int), a.args@[j as int]);
                assert(a.args@.subrange(0, j as int).push(a.args@[j as int]) =~= a.args@.subrange(0, j + 1));
            }
            args.push(g);
            j = j + 1;
        }
        proof {
            assert(a.args@.subrange(0, j as int) =~= a.args@);
        }
        let c = BsolAttribute { span: a.span, name: a.name.clone(), args };
        proof {
            lemma_view_attrs_push(out@, c);
            lemma_view_attrs_push(s@.subrange(0, i as int), s@[i as int]);
            assert(s@.subrange(0, i as int).push(s@[i as int]) =~= s@.subrange(0, i + 1));
        }
        out.push(c);
        i = i + 1;
    }
    proof {
        assert(s@.subrange(0, i as int) =~= s@);
    }
    out
}

pub fn copy_block(b: &BsolBlock) -> (r: BsolBlock)
    ensures
        r@ == b@,
    decreases b, 2nat,
{
    proof {
        assert(decreases_to!(*b => b.attrs));
    }
    let attrs = copy_attrs(&b.attrs);
    let label = match &b.label {
        Some(q) => Some(copy_quoted(q)),
        None => None,
    };
    let mut items: Vec<BsolItem> = Vec::new();
    let mut i: usize = 0;
    while i < b.items.len()
        invariant
            i <= b.items@.len(),
            view_items(items@) == view_items(b.items@.subrange(0, i as int)),
        decreases b.items.len() - i,
    {
        proof {
            assert(decreases_to!(*b => b.items));
            assert(decreases_to!(b.items => b.items@));
            assert(decreases_to!(b.items@ => b.items@[i as int]));
        }
        let x = match &b.items[i] {
            BsolItem::Assignment(a) => {
                proof {
                    assert(decreases_to!(b.items@[i as int] => b.items@[i as int]->Assignment_0));
                    assert(decreases_to!(b.items@[i as int]->Assignment_0 => b.items@[i as int]->Assignment_0.attrs));
                    assert(decreases_to!(b.items@[i as int]->Assignment_0 => b.items@[i as int]->Assignment_0.value));
                }
                BsolItem::Assignment(
                    BsolAssignment {
                        span: a.span,
                        attrs: copy_attrs(&a.attrs),
                        key: a.key.clone(),
                        value: copy_value(&a.value),
                    },
                )
            },
            BsolItem::Block(nb) => {
                proof {
                    assert(decreases_to!(b.items@[i as int] => b.items@[i as int]->Block_0));
                }
                BsolItem::Block(copy_block(nb))
            },
        };
        proof {
            lemma_view_items_push(items@, x);
            lemma_view_items_push(b.items@.subrange(0, i as int), b.items@[i as int]);
            assert(b.items@.subrange(0, i as int).push(b.items@[i as int]) =~= b.items@.subrange(0, i + 1));
        }
        items.push(x);
        i = i + 1;
    }
    proof {
        assert(b.items@.subrange(0, i as int) =~= b.items@);
    }
    BsolBlock {
        span: b.span,
        attrs,
        kind: b.kind.clone(),
        label,
        schemaless_body: copy_opt_text(&b.schemaless_body),
        items,
    }
}

} // verus!
