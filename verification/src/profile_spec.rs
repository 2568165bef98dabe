//! What a profile document means: the schema profile that a `profile` block declares.

use vstd::prelude::*;

use crate::ast::{bool_text, ref_text, SAssign, SBlock, SDocument, SItem, SListItem, SValue};
use crate::error::{schema_err, SError};
use crate::numbers::{parse_i64_text, parse_u32_text};
use crate::schema::{Cardinality, LabelRequirement, RuleScope};
use crate::schema_view::{
    SConstraints, SExtend, SField, SImport, SImportSource, SKind, SMigration, SProfile, SRewrite,
    SRule, SVType, SVariant, SWhen,
};
use crate::value_type::{parse_vtype, starts_with};

verus! {

// ---------------------------------------------------------------------------
// Keyed lists of the model
// ---------------------------------------------------------------------------

/// Index of the first entry keyed `k`, or -1.
pub open spec fn vkey_index<V>(s: Seq<(Seq<char>, V)>, k: Seq<char>) -> int
    decreases s.len(),
{
    if s.len() == 0 {
        -1
    } else if s[0].0 == k {
        0
    } else {
        let r = vkey_index(s.drop_first(), k);
        if r < 0 {
            -1
        } else {
            r + 1
        }
    }
}


pub proof fn lemma_vkey_index<V>(s: Seq<(Seq<char>, V)>, k: Seq<char>)
    ensures
        -1 <= vkey_index(s, k) < s.len(),
        vkey_index(s, k) >= 0 ==> s[vkey_index(s, k)].0 == k,
        forall|j: int| 0 <= j < s.len() && (vkey_index(s, k) < 0 || j < vkey_index(s, k)) ==> s[j].0 != k,
    decreases s.len(),
{
    if s.len() > 0 && s[0].0 != k {
        lemma_vkey_index(s.drop_first(), k);
        assert forall|j: int|
            0 <= j < s.len() && (vkey_index(s, k) < 0 || j < vkey_index(s, k)) implies s[j].0 != k by {
            if j > 0 {
                assert(s[j] == s.drop_first()[j - 1]);
            }
        }
    }
}

/// `vkey_index` is the first position holding `k`.
pub proof fn lemma_vkey_index_at<V>(s: Seq<(Seq<char>, V)>, k: Seq<char>, i: int)
    requires
        0 <= i < s.len(),
        s[i].0 == k,
    ensures
        0 <= vkey_index(s, k) <= i,
{
    lemma_vkey_index(s, k);
}

/// The value keyed `k`, if any.
pub open spec fn vget<V>(s: Seq<(Seq<char>, V)>, k: Seq<char>) -> Option<V> {
    let i = vkey_index(s, k);
    if i < 0 {
        None
    } else {
        Some(s[i].1)
    }
}

/// Map insertion: a new key is appended, an existing key has its value replaced in place.
pub open spec fn upsert<V>(s: Seq<(Seq<char>, V)>, k: Seq<char>, v: V) -> Seq<(Seq<char>, V)> {
    let i = vkey_index(s, k);
    if i < 0 {
        s.push((k, v))
    } else {
        s.update(i, (k, v))
    }
}

// ---------------------------------------------------------------------------
// Reading values of assignments
// ---------------------------------------------------------------------------

/// A scalar value as text.
pub open spec fn value_text(v: SValue) -> Result<Seq<char>, SError> {
    match v {
        SValue::QuotedString(q) => Ok(q.value),
        SValue::Ident(i) => Ok(i),
        SValue::Bool(b) => Ok(bool_text(b)),
        SValue::Ref(r) => Ok(ref_text(r)),
        _ => Err(SError::Schema("expected string, found structured value"@)),
    }
}

/// A flat list item as text.
pub open spec fn list_item_text(it: SListItem) -> Result<Seq<char>, SError> {
    match it {
        SListItem::Default => Ok("default"@),
        SListItem::QuotedString(q) => Ok(q.value),
        SListItem::Ident(i) => Ok(i),
        SListItem::Bool(b) => Ok(bool_text(b)),
        SListItem::Ref(r) => Ok(ref_text(r)),
        _ => Err(SError::Schema("expected flat list item, found structured value"@)),
    }
}

/// The texts of flat list items; the first structured item is an error.
pub open spec fn list_texts(items: Seq<SListItem>) -> Result<Seq<Seq<char>>, SError>
    decreases items.len(),
{
    if items.len() == 0 {
        Ok(Seq::empty())
    } else {
        match list_item_text(items[0]) {
            Err(e) => Err(e),
            Ok(t) => match list_texts(items.drop_first()) {
                Err(e) => Err(e),
                Ok(rest) => Ok(seq![t] + rest),
            },
        }
    }
}

/// A bracket list of flat items as texts.
pub open spec fn value_list(v: SValue) -> Result<Seq<Seq<char>>, SError> {
    match v {
        SValue::BracketList(l) => list_texts(l.items),
        _ => Err(SError::Schema("expected list"@)),
    }
}

/// The first assignment keyed `key`.
pub open spec fn first_assign(items: Seq<SItem>, key: Seq<char>) -> Option<SAssign>
    decreases items.len(),
{
    if items.len() == 0 {
        None
    } else {
        match items[0] {
            SItem::Assignment(a) => if a.key == key {
                Some(a)
            } else {
                first_assign(items.drop_first(), key)
            },
            _ => first_assign(items.drop_first(), key),
        }
    }
}

/// The first nested block of kind `kind`.
pub open spec fn first_block(items: Seq<SItem>, kind: Seq<char>) -> Option<SBlock>
    decreases items.len(),
{
    if items.len() == 0 {
        None
    } else {
        match items[0] {
            SItem::Block(b) => if b.kind == kind {
                Some(b)
            } else {
                first_block(items.drop_first(), kind)
            },
            _ => first_block(items.drop_first(), kind),
        }
    }
}

/// The text of the assignment `key`, if the block has one.
pub open spec fn assign_string(b: SBlock, key: Seq<char>) -> Result<Option<Seq<char>>, SError> {
    match first_assign(b.items, key) {
        None => Ok(None),
        Some(a) => match value_text(a.value) {
            Ok(t) => Ok(Some(t)),
            Err(e) => Err(e),
        },
    }
}

/// The list of the assignment `key`; empty when the block has none.
pub open spec fn assign_list(b: SBlock, key: Seq<char>) -> Result<Seq<Seq<char>>, SError> {
    match first_assign(b.items, key) {
        None => Ok(Seq::empty()),
        Some(a) => value_list(a.value),
    }
}

/// The list of the assignment `key`, or empty when it is missing or malformed.
pub open spec fn list_or_empty(b: SBlock, key: Seq<char>) -> Seq<Seq<char>> {
    match assign_list(b, key) {
        Ok(v) => v,
        Err(_) => Seq::empty(),
    }
}

/// A boolean flag: `true` exactly when the assignment's text is `true`.
pub open spec fn flag(b: SBlock, key: Seq<char>) -> Option<bool> {
    match assign_string(b, key) {
        Ok(Some(v)) => Some(v == "true"@),
        _ => None,
    }
}

pub open spec fn flag_or_false(b: SBlock, key: Seq<char>) -> bool {
    match flag(b, key) {
        Some(x) => x,
        None => false,
    }
}

/// The block's label text.
pub open spec fn label_text(b: SBlock) -> Option<Seq<char>> {
    match b.label {
        Some(q) => Some(q.value),
        None => None,
    }
}

/// The label, or else the text of the assignment `key` when it reads.
pub open spec fn label_or(b: SBlock, key: Seq<char>) -> Option<Seq<char>> {
    match label_text(b) {
        Some(v) => Some(v),
        None => match assign_string(b, key) {
            Ok(Some(v)) => Some(v),
            _ => None,
        },
    }
}

/// Key/value texts of the assignments of `items`, in map-insertion order.
pub open spec fn assign_pairs(items: Seq<SItem>, acc: Seq<(Seq<char>, Seq<char>)>) -> Result<
    Seq<(Seq<char>, Seq<char>)>,
    SError,
>
    decreases items.len(),
{
    if items.len() == 0 {
        Ok(acc)
    } else {
        match items[0] {
            SItem::Assignment(a) => match value_text(a.value) {
                Err(e) => Err(e),
                Ok(v) => assign_pairs(items.drop_first(), upsert(acc, a.key, v)),
            },
            _ => assign_pairs(items.drop_first(), acc),
        }
    }
}

/// The conditions of the nested block `key` (such as `required_if`).
pub open spec fn if_map(b: SBlock, key: Seq<char>) -> Result<Seq<(Seq<char>, Seq<char>)>, SError> {
    match first_block(b.items, key) {
        None => Ok(Seq::empty()),
        Some(nb) => assign_pairs(nb.items, Seq::empty()),
    }
}

// ---------------------------------------------------------------------------
// Fields and variants
// ---------------------------------------------------------------------------

/// The value type a `field` block declares.
pub open spec fn vtype_of(b: SBlock) -> Result<SVType, SError> {
    match assign_string(b, "type"@) {
        Err(e) => Err(e),
        Ok(None) => Err(schema_err(b.span, "`field` block requires `type`"@)),
        Ok(Some(ty)) => if ty == "enum_or_quoted"@ {
            match assign_list(b, "values"@) {
                Err(e) => Err(e),
                Ok(v) => Ok(SVType::EnumOrQuoted(v)),
            }
        } else {
            match parse_vtype(ty) {
                Ok(t) => Ok(t),
                Err(m) => Err(schema_err(b.span, m)),
            }
        },
    }
}

pub open spec fn opt_i64(o: Option<Seq<char>>) -> Option<i64> {
    match o {
        Some(t) => parse_i64_text(t),
        None => None,
    }
}

/// The non-empty list of allowed list values, if declared.
pub open spec fn list_values_of(b: SBlock) -> Option<Seq<Seq<char>>> {
    match assign_list(b, "list_values"@) {
        Ok(v) => if v.len() > 0 {
            Some(v)
        } else {
            None
        },
        Err(_) => None,
    }
}

/// The field rule a `field` block declares.
pub open spec fn field_of(b: SBlock) -> Result<SField, SError> {
    match vtype_of(b) {
        Err(e) => Err(e),
        Ok(vt) => match assign_string(b, "default"@) {
            Err(e) => Err(e),
            Ok(dv) => match assign_string(b, "min"@) {
                Err(e) => Err(e),
                Ok(mn) => match assign_string(b, "max"@) {
                    Err(e) => Err(e),
                    Ok(mx) => match assign_string(b, "pattern"@) {
                        Err(e) => Err(e),
                        Ok(pat) => match if_map(b, "required_if"@) {
                            Err(e) => Err(e),
                            Ok(ri) => match if_map(b, "forbid_if"@) {
                                Err(e) => Err(e),
                                Ok(fi) => Ok(
                                    SField {
                                        value_type: vt,
                                        required: flag_or_false(b, "required"@),
                                        list_values: list_values_of(b),
                                        constraints: SConstraints {
                                            default_value: dv,
                                            min: opt_i64(mn),
                                            max: opt_i64(mx),
                                            pattern: pat,
                                            required_if: ri,
                                            forbid_if: fi,
                                        },
                                        allowed_attrs: list_or_empty(b, "allowed_attrs"@),
                                    },
                                ),
                            },
                        },
                    },
                },
            },
        },
    }
}

/// The variant a `variant` block declares.
pub open spec fn variant_of(b: SBlock) -> Result<SVariant, SError> {
    match label_or(b, "name"@) {
        None => Err(schema_err(b.span, "`variant` block requires a name label"@)),
        Some(name) => Ok(
            SVariant {
                name,
                require: list_or_empty(b, "require"@),
                forbid: list_or_empty(b, "forbid"@),
            },
        ),
    }
}

// ---------------------------------------------------------------------------
// Rules
// ---------------------------------------------------------------------------

pub open spec fn scope_of(b: SBlock) -> Result<Option<RuleScope>, SError> {
    match assign_string(b, "scope"@) {
        Err(e) => Err(e),
        Ok(None) => Ok(None),
        Ok(Some(s)) => if s == "top"@ {
            Ok(Some(RuleScope::TopLevel))
        } else if s == "nested"@ {
            Ok(Some(RuleScope::Nested))
        } else if s == "any"@ {
            Ok(Some(RuleScope::Any))
        } else {
            Err(schema_err(b.span, "unknown scope `"@ + s + "`"@))
        },
    }
}

pub open spec fn kind_match_of(b: SBlock) -> Result<SKind, SError> {
    match assign_string(b, "match"@) {
        Err(e) => Err(e),
        Ok(m0) => {
            let m = match m0 {
                Some(m) => m,
                None => "keyword"@,
            };
            if m == "keyword"@ {
                match assign_string(b, "keyword"@) {
                    Err(e) => Err(e),
                    Ok(None) => Err(schema_err(b.span, "`match = keyword` requires `keyword`"@)),
                    Ok(Some(k)) => Ok(SKind::Keyword(k)),
                }
            } else if m == "keywords"@ {
                match assign_list(b, "keywords"@) {
                    Err(e) => Err(e),
                    Ok(v) => Ok(SKind::Keywords(v)),
                }
            } else if m == "free_ident"@ {
                Ok(SKind::FreeIdent(list_or_empty(b, "except"@)))
            } else {
                Err(schema_err(b.span, "unknown kind match `"@ + m + "`"@))
            }
        },
    }
}

pub open spec fn label_req_of(b: SBlock) -> Result<LabelRequirement, SError> {
    match assign_string(b, "label"@) {
        Err(e) => Err(e),
        Ok(None) => Ok(LabelRequirement::Optional),
        Ok(Some(s)) => if s == "required"@ {
            Ok(LabelRequirement::Required)
        } else if s == "forbidden"@ {
            Ok(LabelRequirement::Forbidden)
        } else if s == "optional"@ {
            Ok(LabelRequirement::Optional)
        } else {
            Err(schema_err(b.span, "unknown label requirement `"@ + s + "`"@))
        },
    }
}

pub open spec fn cardinality_of(b: SBlock) -> Result<Cardinality, SError> {
    match assign_string(b, "cardinality"@) {
        Err(e) => Err(e),
        Ok(None) => Ok(Cardinality::Many),
        Ok(Some(s)) => if s == "one"@ {
            Ok(Cardinality::One)
        } else if s == "many"@ {
            Ok(Cardinality::Many)
        } else if s == "zero_or_one"@ {
            Ok(Cardinality::ZeroOrOne)
        } else {
            Err(schema_err(b.span, "unknown cardinality `"@ + s + "`"@))
        },
    }
}

/// What the body of a rule block declares so far.
pub ghost struct RuleBody {
    pub fields: Seq<(Seq<char>, SField)>,
    pub nested: Seq<(Seq<char>, SRule)>,
    pub nested_order: Seq<Seq<char>>,
    pub variants: Seq<SVariant>,
}

pub open spec fn empty_body() -> RuleBody {
    RuleBody {
        fields: Seq::empty(),
        nested: Seq::empty(),
        nested_order: Seq::empty(),
        variants: Seq::empty(),
    }
}

/// The rule a `rule` or `nested` block declares.
pub open spec fn rule_of(b: SBlock, default_scope: RuleScope) -> Result<SRule, SError>
    decreases b,
{
    match scope_of(b) {
        Err(e) => Err(e),
        Ok(sc) => match kind_match_of(b) {
            Err(e) => Err(e),
            Ok(km) => match label_req_of(b) {
                Err(e) => Err(e),
                Ok(lab) => match cardinality_of(b) {
                    Err(e) => Err(e),
                    Ok(card) => match assign_string(b, "extends"@) {
                        Err(e) => Err(e),
                        Ok(ext) => match rule_items(b.items, empty_body()) {
                            Err(e) => Err(e),
                            Ok(body) => Ok(
                                SRule {
                                    id: match label_or(b, "id"@) {
                                        Some(v) => v,
                                        None => b.kind,
                                    },
                                    scope: match sc {
                                        Some(s) => s,
                                        None => default_scope,
                                    },
                                    kind_match: km,
                                    label: lab,
                                    cardinality: card,
                                    fields: body.fields,
                                    nested: body.nested,
                                    nested_order: body.nested_order,
                                    allow_extra_fields: flag_or_false(b, "extras"@),
                                    allow_extra_nested: flag_or_false(b, "nested_extras"@),
                                    schemaless: flag_or_false(b, "schemaless"@),
                                    extends: ext,
                                    mixes: list_or_empty(b, "mixes"@),
                                    variants: body.variants,
                                    allowed_attrs: list_or_empty(b, "allowed_attrs"@),
                                },
                            ),
                        },
                    },
                },
            },
        },
    }
}

/// The `field`, `nested` and `variant` blocks of a rule body, in order.
pub open spec fn rule_items(items: Seq<SItem>, acc: RuleBody) -> Result<RuleBody, SError>
    decreases items,
{
    if items.len() == 0 {
        Ok(acc)
    } else {
        let rest = items.subrange(1, items.len() as int);
        match items[0] {
            SItem::Assignment(_) => rule_items(rest, acc),
            SItem::Block(nb) => if nb.kind == "field"@ {
                match label_or(nb, "name"@) {
                    None => Err(
                        schema_err(nb.span, "`field` block requires a quoted label or `name`"@),
                    ),
                    Some(name) => match field_of(nb) {
                        Err(e) => Err(e),
                        Ok(f) => rule_items(rest, RuleBody { fields: upsert(acc.fields, name, f), ..acc }),
                    },
                }
            } else if nb.kind == "nested"@ {
                match label_or(nb, "id"@) {
                    None => Err(
                        schema_err(nb.span, "`nested` block requires a quoted label or `id`"@),
                    ),
                    Some(nid) => match rule_of(nb, RuleScope::Nested) {
                        Err(e) => Err(e),
                        Ok(r) => rule_items(
                            rest,
                            RuleBody {
                                nested: upsert(acc.nested, nid, r),
                                nested_order: acc.nested_order.push(nid),
                                ..acc
                            },
                        ),
                    },
                }
            } else if nb.kind == "variant"@ {
                match variant_of(nb) {
                    Err(e) => Err(e),
                    Ok(v) => rule_items(rest, RuleBody { variants: acc.variants.push(v), ..acc }),
                }
            } else {
                Err(schema_err(nb.span, "unexpected `"@ + nb.kind + "` inside rule"@))
            },
        }
    }
}

// ---------------------------------------------------------------------------
// Imports, extensions and migrations
// ---------------------------------------------------------------------------

/// A required assignment: its text, or the error naming it.
pub open spec fn required_text(b: SBlock, key: Seq<char>, missing: Seq<char>) -> Result<
    Seq<char>,
    SError,
> {
    match assign_string(b, key) {
        Err(e) => Err(e),
        Ok(None) => Err(schema_err(b.span, missing)),
        Ok(Some(v)) => Ok(v),
    }
}

pub open spec fn import_source_of(b: SBlock, from: Seq<char>) -> Result<SImportSource, SError> {
    if starts_with(from, "@pckg/"@) {
        Ok(SImportSource::PckgShorthand { reference: from })
    } else if from == "file"@ {
        match required_text(b, "path"@, "`from = file` requires `path`"@) {
            Err(e) => Err(e),
            Ok(path) => Ok(SImportSource::File { path }),
        }
    } else if from == "git"@ {
        match required_text(b, "url"@, "`from = git` requires `url`"@) {
            Err(e) => Err(e),
            Ok(url) => match required_text(b, "rev"@, "`from = git` requires `rev`"@) {
                Err(e) => Err(e),
                Ok(rev) => match required_text(b, "path"@, "`from = git` requires `path`"@) {
                    Err(e) => Err(e),
                    Ok(path) => Ok(SImportSource::Git { url, rev, path }),
                },
            },
        }
    } else if from == "registry"@ {
        match required_text(b, "package"@, "`from = registry` requires `package`"@) {
            Err(e) => Err(e),
            Ok(package) => match required_text(
                b,
                "version"@,
                "`from = registry` requires `version`"@,
            ) {
                Err(e) => Err(e),
                Ok(version) => match required_text(
                    b,
                    "path"@,
                    "`from = registry` requires `path`"@,
                ) {
                    Err(e) => Err(e),
                    Ok(path) => Ok(SImportSource::Registry { package, version, path }),
                },
            },
        }
    } else {
        Err(schema_err(b.span, "unknown import source `"@ + from + "`"@))
    }
}

/// The import an `import_schema` block declares.
pub open spec fn import_of(b: SBlock) -> Result<SImport, SError> {
    match label_text(b) {
        None => Err(
            schema_err(b.span, "`import_schema` block requires a quoted profile name label"@),
        ),
        Some(name) => match assign_string(b, "alias"@) {
            Err(e) => Err(e),
            Ok(alias) => match required_text(b, "from"@, "`import_schema` requires `from`"@) {
                Err(e) => Err(e),
                Ok(from) => match import_source_of(b, from) {
                    Err(e) => Err(e),
                    Ok(source) => Ok(SImport { name, alias, from: source, span: b.span }),
                },
            },
        },
    }
}

/// The labelled `rule` blocks of an `extend` block.
pub open spec fn extend_rules(items: Seq<SItem>, acc: Seq<(Seq<char>, SRule)>) -> Result<
    Seq<(Seq<char>, SRule)>,
    SError,
>
    decreases items.len(),
{
    if items.len() == 0 {
        Ok(acc)
    } else {
        match items[0] {
            SItem::Block(rb) => if rb.kind == "rule"@ {
                match label_text(rb) {
                    None => Err(schema_err(rb.span, "extend rule requires label"@)),
                    Some(id) => match rule_of(rb, RuleScope::TopLevel) {
                        Err(e) => Err(e),
                        Ok(r) => extend_rules(items.drop_first(), upsert(acc, id, r)),
                    },
                }
            } else {
                extend_rules(items.drop_first(), acc)
            },
            _ => extend_rules(items.drop_first(), acc),
        }
    }
}

/// The overlay an `extend` block declares.
pub open spec fn extend_of(b: SBlock) -> Result<SExtend, SError> {
    match label_or(b, "base"@) {
        None => Err(schema_err(b.span, "`extend` block requires a base profile label"@)),
        Some(base) => match extend_rules(b.items, Seq::empty()) {
            Err(e) => Err(e),
            Ok(rules) => Ok(SExtend { base, rules, span: b.span }),
        },
    }
}

pub open spec fn when_of(b: SBlock) -> Result<SWhen, SError> {
    match assign_string(b, "block"@) {
        Err(e) => Err(e),
        Ok(bk) => match assign_string(b, "field"@) {
            Err(e) => Err(e),
            Ok(f) => match assign_string(b, "field_value"@) {
                Err(e) => Err(e),
                Ok(fv) => match assign_string(b, "missing_field"@) {
                    Err(e) => Err(e),
                    Ok(mf) => Ok(
                        SWhen { block_kind: bk, field: f, field_value: fv, missing_field: mf },
                    ),
                },
            },
        },
    }
}

/// Add or rename rewrites from the entries of an inline map.
pub open spec fn entry_rewrites(
    entries: Seq<crate::ast::SEntry>,
    rename: bool,
    acc: Seq<SRewrite>,
) -> Result<Seq<SRewrite>, SError>
    decreases entries.len(),
{
    if entries.len() == 0 {
        Ok(acc)
    } else {
        match value_text(entries[0].value) {
            Err(e) => Err(e),
            Ok(v) => entry_rewrites(
                entries.drop_first(),
                rename,
                acc.push(
                    if rename {
                        SRewrite::RenameField { from: entries[0].key, to: v }
                    } else {
                        SRewrite::AddField { key: entries[0].key, value: v }
                    },
                ),
            ),
        }
    }
}

/// A replace rewrite from the `from` and `to` assignments of `b`, when both are present.
pub open spec fn replace_of(b: SBlock, acc: Seq<SRewrite>) -> Result<Seq<SRewrite>, SError> {
    match assign_string(b, "from"@) {
        Err(e) => Err(e),
        Ok(f) => match assign_string(b, "to"@) {
            Err(e) => Err(e),
            Ok(t) => match (f, t) {
                (Some(from), Some(to)) => Ok(acc.push(SRewrite::ReplaceValue { from, to })),
                _ => Ok(acc),
            },
        },
    }
}

/// The rewrites that one item of the `rewrite` block `b` adds to `acc`.
pub open spec fn rewrite_step(b: SBlock, it: SItem, acc: Seq<SRewrite>) -> Result<Seq<SRewrite>, SError> {
    match it {
        SItem::Assignment(a) => if a.key == "add_field"@ {
            match a.value {
                SValue::InlineMap(m) => entry_rewrites(m.entries, false, acc),
                _ => Ok(acc),
            }
        } else if a.key == "rename_field"@ {
            match a.value {
                SValue::InlineMap(m) => entry_rewrites(m.entries, true, acc),
                _ => Ok(acc),
            }
        } else if a.key == "replace_value"@ {
            replace_of(b, acc)
        } else {
            Ok(acc)
        },
        SItem::Block(nb) => if nb.kind == "replace_value"@ {
            replace_of(nb, acc)
        } else {
            Ok(acc)
        },
    }
}

/// The rewrites of a `rewrite` block `b`, from its items `items`.
pub open spec fn rewrites_of(b: SBlock, items: Seq<SItem>, acc: Seq<SRewrite>) -> Result<
    Seq<SRewrite>,
    SError,
>
    decreases items.len(),
{
    if items.len() == 0 {
        Ok(acc)
    } else {
        match rewrite_step(b, items[0], acc) {
            Err(e) => Err(e),
            Ok(next) => rewrites_of(b, items.drop_first(), next),
        }
    }
}

/// What the nested blocks of a `migration` block declare so far.
pub ghost struct MigrationBody {
    pub detect: Seq<(Seq<char>, Seq<char>)>,
    pub when_clauses: Seq<SWhen>,
    pub rewrites: Seq<SRewrite>,
}

/// What one item of a `migration` block adds to `acc`.
pub open spec fn migration_step(it: SItem, acc: MigrationBody) -> Result<MigrationBody, SError> {
    match it {
        SItem::Block(nb) => if nb.kind == "detect"@ {
            match assign_pairs(nb.items, acc.detect) {
                Err(e) => Err(e),
                Ok(d) => Ok(MigrationBody { detect: d, ..acc }),
            }
        } else if nb.kind == "when"@ {
            match when_of(nb) {
                Err(e) => Err(e),
                Ok(w) => Ok(MigrationBody { when_clauses: acc.when_clauses.push(w), ..acc }),
            }
        } else if nb.kind == "rewrite"@ {
            match rewrites_of(nb, nb.items, Seq::empty()) {
                Err(e) => Err(e),
                Ok(rs) => Ok(MigrationBody { rewrites: acc.rewrites + rs, ..acc }),
            }
        } else {
            Ok(acc)
        },
        _ => Ok(acc),
    }
}

pub open spec fn migration_items(items: Seq<SItem>, acc: MigrationBody) -> Result<
    MigrationBody,
    SError,
>
    decreases items.len(),
{
    if items.len() == 0 {
        Ok(acc)
    } else {
        match migration_step(items[0], acc) {
            Err(e) => Err(e),
            Ok(next) => migration_items(items.drop_first(), next),
        }
    }
}

/// The route a `migration` block declares.
pub open spec fn migration_of(b: SBlock) -> Result<SMigration, SError> {
    match required_text(b, "from"@, "`migration` requires `from` profile"@) {
        Err(e) => Err(e),
        Ok(from) => match migration_items(
            b.items,
            MigrationBody { detect: Seq::empty(), when_clauses: Seq::empty(), rewrites: Seq::empty() },
        ) {
            Err(e) => Err(e),
            Ok(m) => Ok(
                SMigration {
                    from,
                    detect: m.detect,
                    when_clauses: m.when_clauses,
                    rewrites: m.rewrites,
                    span: b.span,
                },
            ),
        },
    }
}

// ---------------------------------------------------------------------------
// Profile documents
// ---------------------------------------------------------------------------

/// The first top-level block of kind `kind`.
pub open spec fn first_doc_block(blocks: Seq<SBlock>, kind: Seq<char>) -> Option<SBlock>
    decreases blocks.len(),
{
    if blocks.len() == 0 {
        None
    } else if blocks[0].kind == kind {
        Some(blocks[0])
    } else {
        first_doc_block(blocks.drop_first(), kind)
    }
}

/// The profile version: the `version` assignment read as a `u32`, else 1.
pub open spec fn version_of(b: SBlock) -> Result<u32, SError> {
    match assign_string(b, "version"@) {
        Err(e) => Err(e),
        Ok(None) => Ok(1),
        Ok(Some(t)) => match parse_u32_text(t) {
            Some(n) => Ok(n),
            None => Ok(1),
        },
    }
}

/// What one item of a `profile` block adds to `acc`.
pub open spec fn profile_step(it: SItem, acc: SProfile) -> Result<SProfile, SError> {
    match it {
        SItem::Block(rb) => if rb.kind == "import_schema"@ {
            match import_of(rb) {
                Err(e) => Err(e),
                Ok(i) => Ok(SProfile { imports: acc.imports.push(i), ..acc }),
            }
        } else if rb.kind == "extend"@ {
            match extend_of(rb) {
                Err(e) => Err(e),
                Ok(x) => Ok(SProfile { extends: acc.extends.push(x), ..acc }),
            }
        } else if rb.kind == "migration"@ {
            match migration_of(rb) {
                Err(e) => Err(e),
                Ok(m) => Ok(SProfile { migrations: acc.migrations.push(m), ..acc }),
            }
        } else if rb.kind == "rule"@ {
            match label_or(rb, "id"@) {
                None => Err(schema_err(rb.span, "rule block requires a quoted label or `id`"@)),
                Some(id) => match rule_of(rb, RuleScope::TopLevel) {
                    Err(e) => Err(e),
                    Ok(r) => Ok(
                        SProfile {
                            rules: upsert(acc.rules, id, r),
                            top_level_order: if r.scope == RuleScope::TopLevel {
                                acc.top_level_order.push(id)
                            } else {
                                acc.top_level_order
                            },
                            ..acc
                        },
                    ),
                },
            }
        } else {
            Err(schema_err(rb.span, "unexpected item `"@ + rb.kind + "` inside profile"@))
        },
        _ => Ok(acc),
    }
}

/// The items of a `profile` block, read into `acc` (whose name and version are set).
pub open spec fn profile_items(items: Seq<SItem>, acc: SProfile) -> Result<SProfile, SError>
    decreases items.len(),
{
    if items.len() == 0 {
        Ok(acc)
    } else {
        match profile_step(items[0], acc) {
            Err(e) => Err(e),
            Ok(next) => profile_items(items.drop_first(), next),
        }
    }
}

/// The profile a schema profile document declares (before composition).
pub open spec fn profile_of(d: SDocument) -> Result<SProfile, SError> {
    match first_doc_block(d.blocks, "profile"@) {
        None => Err(SError::Schema("schema profile document must contain a `profile` block"@)),
        Some(pb) => match label_text(pb) {
            None => Err(
                schema_err(pb.span, "`profile` block must carry a quoted label (profile name)"@),
            ),
            Some(name) => match version_of(pb) {
                Err(e) => Err(e),
                Ok(version) => profile_items(
                    pb.items,
                    SProfile {
                        name,
                        version,
                        rules: Seq::empty(),
                        top_level_order: Seq::empty(),
                        imports: Seq::empty(),
                        extends: Seq::empty(),
                        migrations: Seq::empty(),
                    },
                ),
            },
        },
    }
}

} // verus!
