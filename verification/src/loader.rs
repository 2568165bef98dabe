//! Bootstrap loader: reads declarative schema profile documents into [`SchemaProfile`]s.

use vstd::prelude::*;
use vstd::string::StringSliceAdditionalSpecFns;

use crate::ast::{view_items, BsolBlock, BsolDocument, BsolItem, BsolValue, SBlock, SItem};
use crate::decode::{
    assignment_list, assignment_pairs, assignment_string, label_or_assignment, label_string,
    lemma_key_index_views, list_or_default, flag_value, opt_text_res, parse_if_map, texts_res,
    upsert_entry, value_as_string, pairs_res,
};
use crate::error::{BsolError, SError};
use crate::numbers::{parse_i64, parse_u32};
use crate::profile_spec::{
    cardinality_of, empty_body, entry_rewrites, extend_of, extend_rules, field_of, first_doc_block,
    import_of, import_source_of, kind_match_of, label_req_of, list_values_of, migration_items,
    migration_of, opt_i64, profile_items, profile_of, replace_of, required_text, rewrites_of,
    rewrite_step, migration_step, profile_step,
    rule_items, rule_of, scope_of, upsert, variant_of, version_of, vtype_of, when_of,
    MigrationBody, RuleBody,
};
use crate::schema::{
    key_index, lemma_key_index, BlockRule, Cardinality, ExtendSpec, FieldConstraints, FieldRule,
    ImportSchemaSpec, ImportSource, KindMatch, LabelRequirement, MigrationRewrite, MigrationSpec,
    MigrationWhenClause, RuleScope, SchemaProfile, ValueType, VariantRule,
};
use crate::schema_view::{
    lemma_view_rules_push, lemma_view_rules_update, text_pairs, texts, view_extend, view_field,
    view_fields, view_import, view_kind, view_migration, view_profile, view_rewrite, view_rule,
    view_rules, view_variant, view_variants, view_vtype, view_when, view_rewrites, view_whens,
    view_imports, view_extends, view_migrations, SExtend, SField, SImport,
    SKind, SMigration, SProfile, SRewrite, SRule, SVariant, SWhen, group_schema_views,
};
use crate::compose::vkeys_distinct;
use crate::profile_spec::{label_or, label_text, vkey_index};
use crate::text::{cat3, chars_of, owned, string_is};
use crate::value_type::parse_value_type_text;

verus! {

broadcast use crate::ast::group_ast_views;

pub open spec fn res_view<T, V>(r: Result<T, BsolError>, f: spec_fn(T) -> V) -> Result<V, SError> {
    match r {
        Ok(x) => Ok(f(x)),
        Err(e) => Err(e@),
    }
}

/// Insertion of a field rule, as the model's `upsert`.
pub fn upsert_field(s: &mut Vec<(String, FieldRule)>, k: String, v: FieldRule)
    ensures
        view_fields(final(s)@) == upsert(view_fields(old(s)@), k@, view_field(v)),
{
    let ghost s0 = s@;
    let ghost t0 = view_fields(s0);
    proof {
        assert forall|i: int| 0 <= i < s0.len() implies #[trigger] s0[i].0@ == t0[i].0 by {
            assert(t0[i] == (s0[i].0@, view_field(s0[i].1)));
        }
        lemma_key_index_views(s0, t0, k@);
        lemma_key_index(s0, k@);
    }
    let ghost kk = k@;
    let ghost vv = view_field(v);
    upsert_entry(s, k, v);
    proof {
        let i = key_index(s0, kk);
        if i < 0 {
            assert(view_fields(s@) =~= t0.push((kk, vv)));
        } else {
            assert(view_fields(s@) =~= t0.update(i, (kk, vv)));
        }
    }
}

/// Insertion of a block rule, as the model's `upsert`.
pub fn upsert_rule(s: &mut Vec<(String, BlockRule)>, k: String, v: BlockRule)
    ensures
        view_rules(final(s)@) == upsert(view_rules(old(s)@), k@, view_rule(v)),
{
    broadcast use group_schema_views;

    let ghost s0 = s@;
    let ghost t0 = view_rules(s0);
    proof {
        crate::schema_view::lemma_view_rules(s0);
        assert forall|i: int| 0 <= i < s0.len() implies #[trigger] s0[i].0@ == t0[i].0 by {}
        lemma_key_index_views(s0, t0, k@);
        lemma_key_index(s0, k@);
    }
    let ghost kk = k@;
    let ghost x = (k, v);
    let ghost i = key_index(s0, kk);
    proof {
        if i < 0 {
            lemma_view_rules_push(s0, x);
        } else {
            lemma_view_rules_update(s0, i, x);
        }
    }
    upsert_entry(s, k, v);
}

fn opt_int(o: &Option<String>) -> (r: Option<i64>)
    ensures
        r == opt_i64(crate::schema_view::opt_text(*o)),
{
    match o {
        Some(t) => parse_i64(&chars_of(t.as_str())),
        None => None,
    }
}

/// The value type a `field` block declares.
fn parse_value_type(block: &BsolBlock) -> (r: Result<ValueType, BsolError>)
    ensures
        res_view(r, |t: ValueType| view_vtype(t)) == vtype_of(block@),
{
    match assignment_string(block, "type") {
        Err(e) => Err(e),
        Ok(None) => Err(BsolError::schema_at(block.span, owned("`field` block requires `type`"))),
        Ok(Some(ty)) => {
            if string_is(&ty, "enum_or_quoted") {
                match assignment_list(block, "values") {
                    Err(e) => Err(e),
                    Ok(v) => Ok(ValueType::EnumOrQuoted(v)),
                }
            } else {
                match parse_value_type_text(ty.as_str()) {
                    Ok(t) => Ok(t),
                    Err(m) => Err(BsolError::schema_at(block.span, m)),
                }
            }
        },
    }
}

/// The field rule a `field` block declares.
pub fn parse_field_rule(block: &BsolBlock) -> (r: Result<FieldRule, BsolError>)
    ensures
        res_view(r, |f: FieldRule| view_field(f)) == field_of(block@),
{
    let value_type = match parse_value_type(block) {
        Err(e) => {
            return Err(e);
        },
        Ok(t) => t,
    };
    let required = flag_value(block, "required");
    let list_values = match assignment_list(block, "list_values") {
        Ok(v) => if v.len() > 0 {
            Some(v)
        } else {
            None
        },
        Err(_) => None,
    };
    let allowed_attrs = list_or_default(block, "allowed_attrs");
    let default_value = match assignment_string(block, "default") {
        Err(e) => {
            return Err(e);
        },
        Ok(v) => v,
    };
    let min = match assignment_string(block, "min") {
        Err(e) => {
            return Err(e);
        },
        Ok(v) => v,
    };
    let max = match assignment_string(block, "max") {
        Err(e) => {
            return Err(e);
        },
        Ok(v) => v,
    };
    let pattern = match assignment_string(block, "pattern") {
        Err(e) => {
            return Err(e);
        },
        Ok(v) => v,
    };
    let required_if = match parse_if_map(block, "required_if") {
        Err(e) => {
            return Err(e);
        },
        Ok(v) => v,
    };
    let forbid_if = match parse_if_map(block, "forbid_if") {
        Err(e) => {
            return Err(e);
        },
        Ok(v) => v,
    };
    let min_v = opt_int(&min);
    let max_v = opt_int(&max);
    proof {
        assert(crate::schema_view::opt_texts(list_values) == list_values_of(block@));
    }
    Ok(
        FieldRule {
            value_type,
            required,
            list_values,
            constraints: FieldConstraints {
                default_value,
                min: min_v,
                max: max_v,
                pattern,
                required_if,
                forbid_if,
            },
            allowed_attrs,
        },
    )
}

/// The variant a `variant` block declares.
pub fn parse_variant_rule(block: &BsolBlock) -> (r: Result<VariantRule, BsolError>)
    ensures
        res_view(r, |v: VariantRule| view_variant(v)) == variant_of(block@),
{
    match label_or_assignment(block, "name") {
        None => Err(
            BsolError::schema_at(block.span, owned("`variant` block requires a name label")),
        ),
        Some(name) => Ok(
            VariantRule {
                name,
                require: list_or_default(block, "require"),
                forbid: list_or_default(block, "forbid"),
            },
        ),
    }
}

fn parse_scope(block: &BsolBlock) -> (r: Result<Option<RuleScope>, BsolError>)
    ensures
        res_view(r, |s: Option<RuleScope>| s) == scope_of(block@),
{
    match assignment_string(block, "scope") {
        Err(e) => Err(e),
        Ok(None) => Ok(None),
        Ok(Some(s)) => {
            if string_is(&s, "top") {
                Ok(Some(RuleScope::TopLevel))
            } else if string_is(&s, "nested") {
                Ok(Some(RuleScope::Nested))
            } else if string_is(&s, "any") {
                Ok(Some(RuleScope::Any))
            } else {
                Err(BsolError::schema_at(block.span, cat3("unknown scope `", s.as_str(), "`")))
            }
        },
    }
}

fn parse_kind_match(block: &BsolBlock) -> (r: Result<KindMatch, BsolError>)
    ensures
        res_view(r, |k: KindMatch| view_kind(k)) == kind_match_of(block@),
{
    let m = match assignment_string(block, "match") {
        Err(e) => {
            return Err(e);
        },
        Ok(Some(m)) => m,
        Ok(None) => owned("keyword"),
    };
    if string_is(&m, "keyword") {
        match assignment_string(block, "keyword") {
            Err(e) => Err(e),
            Ok(None) => Err(
                BsolError::schema_at(block.span, owned("`match = keyword` requires `keyword`")),
            ),
            Ok(Some(k)) => Ok(KindMatch::Keyword(k)),
        }
    } else if string_is(&m, "keywords") {
        match assignment_list(block, "keywords") {
            Err(e) => Err(e),
            Ok(v) => Ok(KindMatch::Keywords(v)),
        }
    } else if string_is(&m, "free_ident") {
        Ok(KindMatch::FreeIdent { except: list_or_default(block, "except") })
    } else {
        Err(BsolError::schema_at(block.span, cat3("unknown kind match `", m.as_str(), "`")))
    }
}

fn parse_label(block: &BsolBlock) -> (r: Result<LabelRequirement, BsolError>)
    ensures
        res_view(r, |l: LabelRequirement| l) == label_req_of(block@),
{
    match assignment_string(block, "label") {
        Err(e) => Err(e),
        Ok(None) => Ok(LabelRequirement::Optional),
        Ok(Some(s)) => {
            if string_is(&s, "required") {
                Ok(LabelRequirement::Required)
            } else if string_is(&s, "forbidden") {
                Ok(LabelRequirement::Forbidden)
            } else if string_is(&s, "optional") {
                Ok(LabelRequirement::Optional)
            } else {
                Err(
                    BsolError::schema_at(
                        block.span,
                        cat3("unknown label requirement `", s.as_str(), "`"),
                    ),
                )
            }
        },
    }
}

fn parse_cardinality(block: &BsolBlock) -> (r: Result<Cardinality, BsolError>)
    ensures
        res_view(r, |c: Cardinality| c) == cardinality_of(block@),
{
    match assignment_string(block, "cardinality") {
        Err(e) => Err(e),
        Ok(None) => Ok(Cardinality::Many),
        Ok(Some(s)) => {
            if string_is(&s, "one") {
                Ok(Cardinality::One)
            } else if string_is(&s, "many") {
                Ok(Cardinality::Many)
            } else if string_is(&s, "zero_or_one") {
                Ok(Cardinality::ZeroOrOne)
            } else {
                Err(
                    BsolError::schema_at(block.span, cat3("unknown cardinality `", s.as_str(), "`")),
                )
            }
        },
    }
}

pub open spec fn body_view(
    fields: Seq<(String, FieldRule)>,
    nested: Seq<(String, BlockRule)>,
    order: Seq<String>,
    variants: Seq<VariantRule>,
) -> RuleBody {
    RuleBody {
        fields: view_fields(fields),
        nested: view_rules(nested),
        nested_order: texts(order),
        variants: view_variants(variants),
    }
}

/// The rule a `rule` or `nested` block declares.
#[verifier::loop_isolation(false)]
pub fn parse_block_rule(block: &BsolBlock, default_scope: RuleScope) -> (r: Result<BlockRule, BsolError>)
    ensures
        res_view(r, |x: BlockRule| view_rule(x)) == rule_of(block@, default_scope),
        r matches Ok(x) ==> rule_keys_distinct(view_rule(x)),
    decreases block,
{
    proof {
        if rule_of(block@, default_scope) is Ok {
            law_rule_keys_distinct(block@, default_scope);
        }
    }
    let id = match label_or_assignment(block, "id") {
        Some(v) => v,
        None => block.kind.clone(),
    };
    let scope = match parse_scope(block) {
        Err(e) => {
            return Err(e);
        },
        Ok(Some(s)) => s,
        Ok(None) => default_scope,
    };
    let kind_match = match parse_kind_match(block) {
        Err(e) => {
            return Err(e);
        },
        Ok(k) => k,
    };
    let label = match parse_label(block) {
        Err(e) => {
            return Err(e);
        },
        Ok(l) => l,
    };
    let cardinality = match parse_cardinality(block) {
        Err(e) => {
            return Err(e);
        },
        Ok(c) => c,
    };
    let allow_extra_fields = flag_value(block, "extras");
    let allow_extra_nested = flag_value(block, "nested_extras");
    let schemaless = flag_value(block, "schemaless");
    let extends = match assignment_string(block, "extends") {
        Err(e) => {
            return Err(e);
        },
        Ok(x) => x,
    };
    let mixes = list_or_default(block, "mixes");
    let allowed_attrs = list_or_default(block, "allowed_attrs");

    let ghost vs = view_items(block.items@);
    let mut fields: Vec<(String, FieldRule)> = Vec::new();
    let mut nested: Vec<(String, BlockRule)> = Vec::new();
    let mut nested_order: Vec<String> = Vec::new();
    let mut variants: Vec<VariantRule> = Vec::new();
    let mut i: usize = 0;
    proof {
        assert(vs.subrange(0, vs.len() as int) =~= vs);
        assert(view_fields(fields@) =~= Seq::<(Seq<char>, SField)>::empty());
        assert(view_rules(nested@) =~= Seq::<(Seq<char>, SRule)>::empty());
        assert(texts(nested_order@) =~= Seq::<Seq<char>>::empty());
        assert(view_variants(variants@) =~= Seq::<SVariant>::empty());
        assert(body_view(fields@, nested@, nested_order@, variants@) == empty_body());
    }
    while i < block.items.len()
        invariant
            vs == view_items(block.items@),
            vs == block@.items,
            i <= vs.len(),
            rule_items(vs, empty_body()) == rule_items(
                vs.subrange(i as int, vs.len() as int),
                body_view(fields@, nested@, nested_order@, variants@),
            ),
        decreases block.items.len() - i,
    {
        let ghost rest = vs.subrange(i as int, vs.len() as int);
        let ghost acc0 = body_view(fields@, nested@, nested_order@, variants@);
        proof {
            assert(rest[0] == vs[i as int]);
            assert(rest.subrange(1, rest.len() as int) =~= vs.subrange(i + 1, vs.len() as int));
        }
        match &block.items[i] {
            BsolItem::Assignment(_) => {},
            BsolItem::Block(nb) => {
                if string_is(&nb.kind, "field") {
                    let name = match label_or_assignment(nb, "name") {
                        None => {
                            return Err(
                                BsolError::schema_at(
                                    nb.span,
                                    owned("`field` block requires a quoted label or `name`"),
                                ),
                            );
                        },
                        Some(n) => n,
                    };
                    match parse_field_rule(nb) {
                        Err(e) => {
                            return Err(e);
                        },
                        Ok(f) => {
                            upsert_field(&mut fields, name, f);
                        },
                    }
                } else if string_is(&nb.kind, "nested") {
                    let nid = match label_or_assignment(nb, "id") {
                        None => {
                            return Err(
                                BsolError::schema_at(
                                    nb.span,
                                    owned("`nested` block requires a quoted label or `id`"),
                                ),
                            );
                        },
                        Some(n) => n,
                    };
                    proof {
                        assert(decreases_to!(block => block.items));
                        assert(decreases_to!(block.items => block.items@));
                        assert(decreases_to!(block.items@ => block.items@[i as int]));
                    }
                    match parse_block_rule(nb, RuleScope::Nested) {
                        Err(e) => {
                            return Err(e);
                        },
                        Ok(r) => {
                            let ghost o0 = nested_order@;
                            nested_order.push(nid.clone());
                            proof {
                                assert(texts(nested_order@) =~= texts(o0).push(nid@));
                            }
                            upsert_rule(&mut nested, nid, r);
                        },
                    }
                } else if string_is(&nb.kind, "variant") {
                    match parse_variant_rule(nb) {
                        Err(e) => {
                            return Err(e);
                        },
                        Ok(v) => {
                            let ghost v0 = variants@;
                            variants.push(v);
                            proof {
                                assert(view_variants(variants@) =~= view_variants(v0).push(
                                    view_variant(v),
                                ));
                            }
                        },
                    }
                } else {
                    return Err(
                        BsolError::schema_at(
                            nb.span,
                            cat3("unexpected `", nb.kind.as_str(), "` inside rule"),
                        ),
                    );
                }
            },
        }
        i = i + 1;
    }
    proof {
        assert(vs.subrange(i as int, vs.len() as int) =~= Seq::<SItem>::empty());
    }
    Ok(
        BlockRule {
            id,
            scope,
            kind_match,
            label,
            cardinality,
            fields,
            nested,
            nested_order,
            allow_extra_fields,
            allow_extra_nested,
            schemaless,
            extends,
            mixes,
            variants,
            allowed_attrs,
        },
    )
}

/// A required assignment's text, or the schema error `missing` at the block.
fn required_string(block: &BsolBlock, key: &str, missing: &str) -> (r: Result<String, BsolError>)
    ensures
        res_view(r, |s: String| s@) == required_text(block@, key@, missing@),
{
    match assignment_string(block, key) {
        Err(e) => Err(e),
        Ok(None) => Err(BsolError::schema_at(block.span, owned(missing))),
        Ok(Some(v)) => Ok(v),
    }
}

fn is_pckg_reference(from: &String) -> (r: bool)
    ensures
        r == crate::value_type::starts_with(from@, "@pckg/"@),
{
    let cs = chars_of(from.as_str());
    proof {
        assert(cs@.subrange(0, cs@.len() as int) =~= cs@);
    }
    crate::value_type::range_starts(&cs, 0, cs.len(), "@pckg/").is_some()
}

fn parse_import_source(block: &BsolBlock, from: String) -> (r: Result<ImportSource, BsolError>)
    ensures
        res_view(r, |s: ImportSource| crate::schema_view::view_import_source(s)) == import_source_of(
            block@,
            from@,
        ),
{
    if is_pckg_reference(&from) {
        return Ok(ImportSource::PckgShorthand { reference: from });
    }
    if string_is(&from, "file") {
        match required_string(block, "path", "`from = file` requires `path`") {
            Err(e) => Err(e),
            Ok(path) => Ok(ImportSource::File { path }),
        }
    } else if string_is(&from, "git") {
        let url = match required_string(block, "url", "`from = git` requires `url`") {
            Err(e) => {
                return Err(e);
            },
            Ok(v) => v,
        };
        let rev = match required_string(block, "rev", "`from = git` requires `rev`") {
            Err(e) => {
                return Err(e);
            },
            Ok(v) => v,
        };
        let path = match required_string(block, "path", "`from = git` requires `path`") {
            Err(e) => {
                return Err(e);
            },
            Ok(v) => v,
        };
        Ok(ImportSource::Git { url, rev, path })
    } else if string_is(&from, "registry") {
        let package = match required_string(
            block,
            "package",
            "`from = registry` requires `package`",
        ) {
            Err(e) => {
                return Err(e);
            },
            Ok(v) => v,
        };
        let version = match required_string(
            block,
            "version",
            "`from = registry` requires `version`",
        ) {
            Err(e) => {
                return Err(e);
            },
            Ok(v) => v,
        };
        let path = match required_string(block, "path", "`from = registry` requires `path`") {
            Err(e) => {
                return Err(e);
            },
            Ok(v) => v,
        };
        Ok(ImportSource::Registry { package, version, path })
    } else {
        Err(BsolError::schema_at(block.span, cat3("unknown import source `", from.as_str(), "`")))
    }
}

/// The import an `import_schema` block declares.
pub fn parse_import_schema(block: &BsolBlock) -> (r: Result<ImportSchemaSpec, BsolError>)
    ensures
        res_view(r, |i: ImportSchemaSpec| view_import(i)) == import_of(block@),
{
    let name = match label_string(block) {
        None => {
            return Err(
                BsolError::schema_at(
                    block.span,
                    owned("`import_schema` block requires a quoted profile name label"),
                ),
            );
        },
        Some(n) => n,
    };
    let alias = match assignment_string(block, "alias") {
        Err(e) => {
            return Err(e);
        },
        Ok(a) => a,
    };
    let from = match required_string(block, "from", "`import_schema` requires `from`") {
        Err(e) => {
            return Err(e);
        },
        Ok(f) => f,
    };
    match parse_import_source(block, from) {
        Err(e) => Err(e),
        Ok(source) => Ok(ImportSchemaSpec { name, alias, from: source, span: block.span }),
    }
}

/// The overlay an `extend` block declares.
#[verifier::loop_isolation(false)]
pub fn parse_extend_block(block: &BsolBlock) -> (r: Result<ExtendSpec, BsolError>)
    ensures
        res_view(r, |x: ExtendSpec| view_extend(x)) == extend_of(block@),
{
    let base = match label_or_assignment(block, "base") {
        None => {
            return Err(
                BsolError::schema_at(
                    block.span,
                    owned("`extend` block requires a base profile label"),
                ),
            );
        },
        Some(b) => b,
    };
    let ghost vs = view_items(block.items@);
    let mut rules: Vec<(String, BlockRule)> = Vec::new();
    let mut i: usize = 0;
    proof {
        assert(vs.subrange(0, vs.len() as int) =~= vs);
        assert(view_rules(rules@) =~= Seq::<(Seq<char>, SRule)>::empty());
    }
    while i < block.items.len()
        invariant
            vs == view_items(block.items@),
            i <= vs.len(),
            extend_rules(vs, Seq::empty()) == extend_rules(
                vs.subrange(i as int, vs.len() as int),
                view_rules(rules@),
            ),
        decreases block.items.len() - i,
    {
        let ghost rest = vs.subrange(i as int, vs.len() as int);
        proof {
            assert(rest[0] == vs[i as int]);
            assert(rest.drop_first() =~= vs.subrange(i + 1, vs.len() as int));
        }
        match &block.items[i] {
            BsolItem::Block(rb) => {
                if string_is(&rb.kind, "rule") {
                    let id = match label_string(rb) {
                        None => {
                            return Err(
                                BsolError::schema_at(rb.span, owned("extend rule requires label")),
                            );
                        },
                        Some(id) => id,
                    };
                    match parse_block_rule(rb, RuleScope::TopLevel) {
                        Err(e) => {
                            return Err(e);
                        },
                        Ok(r) => {
                            upsert_rule(&mut rules, id, r);
                        },
                    }
                }
            },
            _ => {},
        }
        i = i + 1;
    }
    proof {
        assert(vs.subrange(i as int, vs.len() as int) =~= Seq::<SItem>::empty());
    }
    Ok(ExtendSpec { base, rules, span: block.span })
}

fn parse_migration_when(block: &BsolBlock) -> (r: Result<MigrationWhenClause, BsolError>)
    ensures
        res_view(r, |w: MigrationWhenClause| view_when(w)) == when_of(block@),
{
    let block_kind = match assignment_string(block, "block") {
        Err(e) => {
            return Err(e);
        },
        Ok(v) => v,
    };
    let field = match assignment_string(block, "field") {
        Err(e) => {
            return Err(e);
        },
        Ok(v) => v,
    };
    let field_value = match assignment_string(block, "field_value") {
        Err(e) => {
            return Err(e);
        },
        Ok(v) => v,
    };
    let missing_field = match assignment_string(block, "missing_field") {
        Err(e) => {
            return Err(e);
        },
        Ok(v) => v,
    };
    Ok(MigrationWhenClause { block_kind, field, field_value, missing_field })
}

fn push_rewrite(acc: &mut Vec<MigrationRewrite>, x: MigrationRewrite)
    ensures
        view_rewrites(final(acc)@) == view_rewrites(old(acc)@).push(view_rewrite(x)),
{
    let ghost a0 = acc@;
    acc.push(x);
    proof {
        assert(view_rewrites(acc@) =~= view_rewrites(a0).push(view_rewrite(x)));
    }
}

/// Add or rename rewrites from the entries of an inline map, appended to `acc`.
#[verifier::loop_isolation(false)]
fn entry_rewrites_into(map: &crate::ast::BsolInlineMap, rename: bool, acc: &mut Vec<MigrationRewrite>) -> (r: Result<(), BsolError>)
    ensures
        match entry_rewrites(crate::ast::view_entries(map.entries@), rename, view_rewrites(old(acc)@)) {
            Ok(v) => r is Ok && view_rewrites(final(acc)@) == v,
            Err(e) => r is Err && r->Err_0@ == e,
        },
{
    let ghost es = crate::ast::view_entries(map.entries@);
    let ghost a0 = view_rewrites(acc@);
    let mut i: usize = 0;
    proof {
        assert(es.subrange(0, es.len() as int) =~= es);
    }
    while i < map.entries.len()
        invariant
            es == crate::ast::view_entries(map.entries@),
            i <= es.len(),
            entry_rewrites(es, rename, a0) == entry_rewrites(
                es.subrange(i as int, es.len() as int),
                rename,
                view_rewrites(acc@),
            ),
        decreases map.entries.len() - i,
    {
        let ghost rest = es.subrange(i as int, es.len() as int);
        proof {
            assert(rest[0] == es[i as int]);
            assert(rest.drop_first() =~= es.subrange(i + 1, es.len() as int));
        }
        let entry = &map.entries[i];
        match value_as_string(&entry.value) {
            Err(e) => {
                return Err(e);
            },
            Ok(v) => {
                if rename {
                    push_rewrite(acc, MigrationRewrite::RenameField { from: entry.key.clone(), to: v });
                } else {
                    push_rewrite(acc, MigrationRewrite::AddField { key: entry.key.clone(), value: v });
                }
            },
        }
        i = i + 1;
    }
    proof {
        assert(es.subrange(i as int, es.len() as int) =~= Seq::<crate::ast::SEntry>::empty());
    }
    Ok(())
}

/// A replace rewrite from the `from` and `to` assignments of `b`, when both are present.
fn replace_into(b: &BsolBlock, acc: &mut Vec<MigrationRewrite>) -> (r: Result<(), BsolError>)
    ensures
        match replace_of(b@, view_rewrites(old(acc)@)) {
            Ok(v) => r is Ok && view_rewrites(final(acc)@) == v,
            Err(e) => r is Err && r->Err_0@ == e,
        },
{
    let from = match assignment_string(b, "from") {
        Err(e) => {
            return Err(e);
        },
        Ok(v) => v,
    };
    let to = match assignment_string(b, "to") {
        Err(e) => {
            return Err(e);
        },
        Ok(v) => v,
    };
    match (from, to) {
        (Some(f), Some(t)) => {
            push_rewrite(acc, MigrationRewrite::ReplaceValue { from: f, to: t });
        },
        _ => {},
    }
    Ok(())
}

/// The rewrites one item of the `rewrite` block `block` adds.
fn rewrite_step_into(block: &BsolBlock, item: &BsolItem, acc: &mut Vec<MigrationRewrite>) -> (r: Result<(), BsolError>)
    ensures
        match rewrite_step(block@, item@, view_rewrites(old(acc)@)) {
            Ok(v) => r is Ok && view_rewrites(final(acc)@) == v,
            Err(e) => r is Err && r->Err_0@ == e,
        },
{
    match item {
        BsolItem::Assignment(a) => {
            proof {
                assert(item@ == SItem::Assignment(a@));
                assert(a@.key == a.key@ && a@.value == a.value@);
                match &a.value {
                    BsolValue::InlineMap(m) => {
                        assert(a.value@ == crate::ast::SValue::InlineMap(m@));
                        assert(m@.entries == crate::ast::view_entries(m.entries@));
                    },
                    _ => {},
                }
            }
            if string_is(&a.key, "add_field") {
                match &a.value {
                    BsolValue::InlineMap(m) => entry_rewrites_into(m, false, acc),
                    _ => Ok(()),
                }
            } else if string_is(&a.key, "rename_field") {
                match &a.value {
                    BsolValue::InlineMap(m) => entry_rewrites_into(m, true, acc),
                    _ => Ok(()),
                }
            } else if string_is(&a.key, "replace_value") {
                replace_into(block, acc)
            } else {
                Ok(())
            }
        },
        BsolItem::Block(nb) => {
            proof {
                assert(item@ == SItem::Block(nb@));
            }
            if string_is(&nb.kind, "replace_value") {
                replace_into(nb, acc)
            } else {
                Ok(())
            }
        },
    }
}

/// The rewrites of a `rewrite` block.
fn parse_migration_rewrites(block: &BsolBlock) -> (r: Result<Vec<MigrationRewrite>, BsolError>)
    ensures
        res_view(r, |v: Vec<MigrationRewrite>| view_rewrites(v@)) == rewrites_of(
            block@,
            block@.items,
            Seq::empty(),
        ),
{
    let ghost vs = view_items(block.items@);
    let mut acc: Vec<MigrationRewrite> = Vec::new();
    let mut i: usize = 0;
    proof {
        assert(vs.subrange(0, vs.len() as int) =~= vs);
        assert(view_rewrites(acc@) =~= Seq::<SRewrite>::empty());
    }
    while i < block.items.len()
        invariant
            vs == view_items(block.items@),
            vs == block@.items,
            i <= vs.len(),
            rewrites_of(block@, vs, Seq::empty()) == rewrites_of(
                block@,
                vs.subrange(i as int, vs.len() as int),
                view_rewrites(acc@),
            ),
        decreases block.items.len() - i,
    {
        let ghost rest = vs.subrange(i as int, vs.len() as int);
        proof {
            assert(rest[0] == vs[i as int]);
            assert(rest.drop_first() =~= vs.subrange(i + 1, vs.len() as int));
        }
        match rewrite_step_into(block, &block.items[i], &mut acc) {
            Err(e) => {
                return Err(e);
            },
            Ok(()) => {},
        }
        i = i + 1;
    }
    proof {
        assert(vs.subrange(i as int, vs.len() as int) =~= Seq::<SItem>::empty());
    }
    Ok(acc)
}

pub open spec fn migration_body(
    detect: Seq<(String, String)>,
    whens: Seq<MigrationWhenClause>,
    rewrites: Seq<MigrationRewrite>,
) -> MigrationBody {
    MigrationBody { detect: text_pairs(detect), when_clauses: view_whens(whens), rewrites: view_rewrites(rewrites) }
}

/// What one item of a `migration` block adds.
fn migration_step_into(
    item: &BsolItem,
    detect: &mut Vec<(String, String)>,
    whens: &mut Vec<MigrationWhenClause>,
    rewrites: &mut Vec<MigrationRewrite>,
) -> (r: Result<(), BsolError>)
    ensures
        match migration_step(item@, migration_body(old(detect)@, old(whens)@, old(rewrites)@)) {
            Ok(v) => r is Ok && migration_body(final(detect)@, final(whens)@, final(rewrites)@) == v,
            Err(e) => r is Err && r->Err_0@ == e,
        },
{
    match item {
        BsolItem::Block(nb) => {
            proof {
                assert(item@ == SItem::Block(nb@));
            }
            if string_is(&nb.kind, "detect") {
                let mut tmp: Vec<(String, String)> = Vec::new();
                std::mem::swap(&mut tmp, detect);
                match assignment_pairs(&nb.items, tmp) {
                    Err(e) => Err(e),
                    Ok(d) => {
                        *detect = d;
                        Ok(())
                    },
                }
            } else if string_is(&nb.kind, "when") {
                match parse_migration_when(nb) {
                    Err(e) => Err(e),
                    Ok(w) => {
                        let ghost w0 = whens@;
                        whens.push(w);
                        proof {
                            assert(view_whens(whens@) =~= view_whens(w0).push(view_when(w)));
                        }
                        Ok(())
                    },
                }
            } else if string_is(&nb.kind, "rewrite") {
                match parse_migration_rewrites(nb) {
                    Err(e) => Err(e),
                    Ok(rs) => {
                        let ghost r0 = rewrites@;
                        let mut rs = rs;
                        let ghost rs0 = rs@;
                        rewrites.append(&mut rs);
                        proof {
                            assert(view_rewrites(rewrites@) =~= view_rewrites(r0) + view_rewrites(rs0));
                        }
                        Ok(())
                    },
                }
            } else {
                Ok(())
            }
        },
        BsolItem::Assignment(a) => {
            proof {
                assert(item@ == SItem::Assignment(a@));
            }
            Ok(())
        },
    }
}

/// The route a `migration` block declares.
pub fn parse_migration_block(block: &BsolBlock) -> (r: Result<MigrationSpec, BsolError>)
    ensures
        res_view(r, |m: MigrationSpec| crate::schema_view::view_migration(m)) == migration_of(block@),
{
    let from = match required_string(block, "from", "`migration` requires `from` profile") {
        Err(e) => {
            return Err(e);
        },
        Ok(f) => f,
    };
    let ghost vs = view_items(block.items@);
    let mut detect: Vec<(String, String)> = Vec::new();
    let mut whens: Vec<MigrationWhenClause> = Vec::new();
    let mut rewrites: Vec<MigrationRewrite> = Vec::new();
    let ghost init = MigrationBody { detect: Seq::empty(), when_clauses: Seq::empty(), rewrites: Seq::empty() };
    let mut i: usize = 0;
    proof {
        assert(vs.subrange(0, vs.len() as int) =~= vs);
        assert(text_pairs(detect@) =~= Seq::<(Seq<char>, Seq<char>)>::empty());
        assert(view_whens(whens@) =~= Seq::<SWhen>::empty());
        assert(view_rewrites(rewrites@) =~= Seq::<SRewrite>::empty());
        assert(migration_body(detect@, whens@, rewrites@) == init);
    }
    while i < block.items.len()
        invariant
            vs == view_items(block.items@),
            i <= vs.len(),
            migration_of(block@) == match migration_items(vs, init) {
                Err(e) => Err(e),
                Ok(m) => Ok(SMigration { from: from@, detect: m.detect, when_clauses: m.when_clauses, rewrites: m.rewrites, span: block.span }),
            },
            migration_items(vs, init) == migration_items(
                vs.subrange(i as int, vs.len() as int),
                migration_body(detect@, whens@, rewrites@),
            ),
        decreases block.items.len() - i,
    {
        let ghost rest = vs.subrange(i as int, vs.len() as int);
        proof {
            assert(rest[0] == vs[i as int]);
            assert(rest.drop_first() =~= vs.subrange(i + 1, vs.len() as int));
        }
        match migration_step_into(&block.items[i], &mut detect, &mut whens, &mut rewrites) {
            Err(e) => {
                return Err(e);
            },
            Ok(()) => {},
        }
        i = i + 1;
    }
    proof {
        assert(vs.subrange(i as int, vs.len() as int) =~= Seq::<SItem>::empty());
    }
    Ok(MigrationSpec { from, detect, when_clauses: whens, rewrites, span: block.span })
}

/// What one item of a `profile` block adds to the profile being read.
fn profile_step_into(item: &BsolItem, acc: &mut SchemaProfile) -> (r: Result<(), BsolError>)
    ensures
        match profile_step(item@, view_profile(*old(acc))) {
            Ok(v) => r is Ok && view_profile(*final(acc)) == v,
            Err(e) => r is Err && r->Err_0@ == e,
        },
{
    match item {
        BsolItem::Assignment(a) => {
            proof {
                assert(item@ == SItem::Assignment(a@));
            }
            Ok(())
        },
        BsolItem::Block(rb) => {
            proof {
                assert(item@ == SItem::Block(rb@));
            }
            if string_is(&rb.kind, "import_schema") {
                match parse_import_schema(rb) {
                    Err(e) => Err(e),
                    Ok(i) => {
                        let ghost s0 = acc.imports@;
                        acc.imports.push(i);
                        proof {
                            assert(view_imports(acc.imports@) =~= view_imports(s0).push(view_import(i)));
                        }
                        Ok(())
                    },
                }
            } else if string_is(&rb.kind, "extend") {
                match parse_extend_block(rb) {
                    Err(e) => Err(e),
                    Ok(x) => {
                        let ghost s0 = acc.extends@;
                        acc.extends.push(x);
                        proof {
                            assert(view_extends(acc.extends@) =~= view_extends(s0).push(view_extend(x)));
                        }
                        Ok(())
                    },
                }
            } else if string_is(&rb.kind, "migration") {
                match parse_migration_block(rb) {
                    Err(e) => Err(e),
                    Ok(m) => {
                        let ghost s0 = acc.migrations@;
                        acc.migrations.push(m);
                        proof {
                            assert(view_migrations(acc.migrations@) =~= view_migrations(s0).push(
                                crate::schema_view::view_migration(m),
                            ));
                        }
                        Ok(())
                    },
                }
            } else if string_is(&rb.kind, "rule") {
                let id = match label_or_assignment(rb, "id") {
                    None => {
                        return Err(
                            BsolError::schema_at(
                                rb.span,
                                owned("rule block requires a quoted label or `id`"),
                            ),
                        );
                    },
                    Some(id) => id,
                };
                match parse_block_rule(rb, RuleScope::TopLevel) {
                    Err(e) => Err(e),
                    Ok(r) => {
                        if r.scope == RuleScope::TopLevel {
                            let ghost s0 = acc.top_level_order@;
                            acc.top_level_order.push(id.clone());
                            proof {
                                assert(texts(acc.top_level_order@) =~= texts(s0).push(id@));
                            }
                        }
                        upsert_rule(&mut acc.rules, id, r);
                        Ok(())
                    },
                }
            } else {
                Err(
                    BsolError::schema_at(
                        rb.span,
                        cat3("unexpected item `", rb.kind.as_str(), "` inside profile"),
                    ),
                )
            }
        },
    }
}

/// The profile a schema profile document declares, before its rules are composed.
pub fn parse_profile_document(document: &BsolDocument) -> (r: Result<SchemaProfile, BsolError>)
    ensures
        res_view(r, |p: SchemaProfile| view_profile(p)) == profile_of(document@),
        r matches Ok(p) ==> profile_keys_distinct(view_profile(p)),
{
    proof {
        if profile_of(document@) is Ok {
            law_profile_keys_distinct(document@);
        }
    }
    let ghost bs = document@.blocks;
    let mut k: usize = 0;
    proof {
        assert(bs.subrange(0, bs.len() as int) =~= bs);
    }
    while k < document.blocks.len()
        invariant
            bs == document@.blocks,
            bs == crate::ast::view_blocks(document.blocks@),
            k <= bs.len(),
            first_doc_block(bs, "profile"@) == first_doc_block(bs.subrange(k as int, bs.len() as int), "profile"@),
        ensures
            k <= bs.len(),
            k < bs.len() ==> bs[k as int].kind == "profile"@,
            first_doc_block(bs, "profile"@) == first_doc_block(bs.subrange(k as int, bs.len() as int), "profile"@),
        decreases document.blocks.len() - k,
    {
        let ghost rest = bs.subrange(k as int, bs.len() as int);
        proof {
            assert(rest[0] == bs[k as int]);
            assert(rest.drop_first() =~= bs.subrange(k + 1, bs.len() as int));
        }
        if string_is(&document.blocks[k].kind, "profile") {
            break;
        }
        k = k + 1;
    }
    if k == document.blocks.len() {
        return Err(
            BsolError::Schema(owned("schema profile document must contain a `profile` block")),
        );
    }
    let pb = &document.blocks[k];
    proof {
        let rest = bs.subrange(k as int, bs.len() as int);
        assert(rest[0] == bs[k as int]);
        assert(first_doc_block(bs, "profile"@) == Some(pb@));
    }
    let name = match label_string(pb) {
        None => {
            return Err(
                BsolError::schema_at(
                    pb.span,
                    owned("`profile` block must carry a quoted label (profile name)"),
                ),
            );
        },
        Some(n) => n,
    };
    let version = match assignment_string(pb, "version") {
        Err(e) => {
            return Err(e);
        },
        Ok(None) => 1u32,
        Ok(Some(t)) => match parse_u32(&chars_of(t.as_str())) {
            Some(n) => n,
            None => 1u32,
        },
    };
    let mut acc = SchemaProfile {
        name,
        version,
        rules: Vec::new(),
        top_level_order: Vec::new(),
        imports: Vec::new(),
        extends: Vec::new(),
        migrations: Vec::new(),
    };
    let ghost vs = view_items(pb.items@);
    let ghost init = view_profile(acc);
    proof {
        assert(view_rules(acc.rules@) =~= Seq::<(Seq<char>, SRule)>::empty());
        assert(texts(acc.top_level_order@) =~= Seq::<Seq<char>>::empty());
        assert(view_imports(acc.imports@) =~= Seq::<SImport>::empty());
        assert(view_extends(acc.extends@) =~= Seq::<SExtend>::empty());
        assert(view_migrations(acc.migrations@) =~= Seq::<SMigration>::empty());
        assert(profile_of(document@) == profile_items(vs, init));
        assert(vs.subrange(0, vs.len() as int) =~= vs);
    }
    let mut i: usize = 0;
    while i < pb.items.len()
        invariant
            vs == view_items(pb.items@),
            i <= vs.len(),
            profile_of(document@) == profile_items(
                vs.subrange(i as int, vs.len() as int),
                view_profile(acc),
            ),
        decreases pb.items.len() - i,
    {
        let ghost rest = vs.subrange(i as int, vs.len() as int);
        proof {
            assert(rest[0] == vs[i as int]);
            assert(rest.drop_first() =~= vs.subrange(i + 1, vs.len() as int));
        }
        match profile_step_into(&pb.items[i], &mut acc) {
            Err(e) => {
                return Err(e);
            },
            Ok(()) => {},
        }
        i = i + 1;
    }
    proof {
        assert(vs.subrange(i as int, vs.len() as int) =~= Seq::<SItem>::empty());
    }
    Ok(acc)
}

/// The composed profile a profile document declares.
pub open spec fn load_document_spec(d: crate::ast::SDocument) -> Result<SProfile, SError> {
    match profile_of(d) {
        Err(e) => Err(e),
        Ok(p) => crate::compose::compose_spec(p),
    }
}

/// The composed profile a profile source text declares.
pub open spec fn load_source_spec(bytes: Seq<u8>) -> Result<SProfile, SError> {
    match crate::grammar::document_of(bytes) {
        Err(e) => Err(e),
        Ok(blocks) => load_document_spec(crate::ast::SDocument { blocks }),
    }
}

/// Parse and load a profile from an already-parsed document.
pub fn load_profile_from_document(document: &BsolDocument) -> (r: Result<SchemaProfile, BsolError>)
    ensures
        crate::compose::profile_res(r) == load_document_spec(document@),
        r matches Ok(p) ==> vkeys_distinct(view_profile(p).rules),
{
    proof {
        if load_document_spec(document@) is Ok {
            law_loaded_document_rule_ids_distinct(document@);
        }
    }
    match parse_profile_document(document) {
        Err(e) => Err(e),
        Ok(p) => crate::compose::compose_profile(p),
    }
}

/// Parse and load a profile from BSOL source text.
pub fn load_profile_from_source(source: &str) -> (r: Result<SchemaProfile, BsolError>)
    requires
        !crate::grammar::document_unspannable_from(source.spec_bytes(), 0),
    ensures
        crate::compose::profile_res(r) == load_source_spec(source.spec_bytes()),
        r matches Ok(p) ==> vkeys_distinct(view_profile(p).rules),
{
    proof {
        if load_source_spec(source.spec_bytes()) is Ok {
            law_loaded_rule_ids_distinct(source.spec_bytes());
        }
    }
    match crate::parser::parse_bsol_document(source) {
        Err(e) => Err(e),
        Ok(d) => load_profile_from_document(&d),
    }
}

/// A rule holds each field key and each nested rule id once.
pub open spec fn rule_keys_distinct(r: SRule) -> bool {
    vkeys_distinct(r.fields) && vkeys_distinct(r.nested)
}

/// A profile holds each rule id once, and each of its rules each field key and nested id once.
pub open spec fn profile_keys_distinct(p: SProfile) -> bool {
    &&& vkeys_distinct(p.rules)
    &&& forall|i: int| 0 <= i < p.rules.len() ==> rule_keys_distinct(#[trigger] p.rules[i].1)
}

/// The entries after a map insertion are the inserted one or entries kept in place.
proof fn lemma_upsert_entries<V>(s: Seq<(Seq<char>, V)>, k: Seq<char>, v: V)
    ensures
        forall|j: int|
            0 <= j < upsert(s, k, v).len() ==> #[trigger] upsert(s, k, v)[j] == (k, v) || (j < s.len()
                && upsert(s, k, v)[j] == s[j]),
{
    crate::profile_spec::lemma_vkey_index(s, k);
    let u = upsert(s, k, v);
    assert forall|j: int| 0 <= j < u.len() implies #[trigger] u[j] == (k, v) || (j < s.len() && u[j] == s[j]) by {
        if vkey_index(s, k) < 0 {
            if j < s.len() {
                assert(u[j] == s[j]);
            }
        } else if j != vkey_index(s, k) {
            assert(u[j] == s[j]);
        }
    }
}

proof fn lemma_rule_items_distinct(items: Seq<SItem>, acc: RuleBody)
    requires
        vkeys_distinct(acc.fields),
        vkeys_distinct(acc.nested),
        rule_items(items, acc) is Ok,
    ensures
        vkeys_distinct(rule_items(items, acc)->Ok_0.fields),
        vkeys_distinct(rule_items(items, acc)->Ok_0.nested),
    decreases items,
{
    if items.len() > 0 {
        let rest = items.subrange(1, items.len() as int);
        match items[0] {
            SItem::Assignment(_) => lemma_rule_items_distinct(rest, acc),
            SItem::Block(nb) => {
                if nb.kind == "field"@ {
                    let name = label_or(nb, "name"@)->Some_0;
                    let f = field_of(nb)->Ok_0;
                    crate::compose::lemma_upsert_distinct(acc.fields, name, f);
                    lemma_rule_items_distinct(rest, RuleBody { fields: upsert(acc.fields, name, f), ..acc });
                } else if nb.kind == "nested"@ {
                    let nid = label_or(nb, "id"@)->Some_0;
                    let r = rule_of(nb, RuleScope::Nested)->Ok_0;
                    crate::compose::lemma_upsert_distinct(acc.nested, nid, r);
                    lemma_rule_items_distinct(
                        rest,
                        RuleBody { nested: upsert(acc.nested, nid, r), nested_order: acc.nested_order.push(nid), ..acc },
                    );
                } else if nb.kind == "variant"@ {
                    let v = variant_of(nb)->Ok_0;
                    lemma_rule_items_distinct(rest, RuleBody { variants: acc.variants.push(v), ..acc });
                }
            },
        }
    }
}

/// A rule read from a `rule` or `nested` block holds each field key and nested id once.
pub proof fn law_rule_keys_distinct(b: SBlock, default_scope: RuleScope)
    requires
        rule_of(b, default_scope) is Ok,
    ensures
        rule_keys_distinct(rule_of(b, default_scope)->Ok_0),
{
    lemma_rule_items_distinct(b.items, empty_body());
}

proof fn lemma_profile_step_distinct(it: SItem, acc: SProfile)
    requires
        profile_keys_distinct(acc),
        profile_step(it, acc) is Ok,
    ensures
        profile_keys_distinct(profile_step(it, acc)->Ok_0),
{
    let next = profile_step(it, acc)->Ok_0;
    if let SItem::Block(rb) = it {
        if rb.kind != "import_schema"@ && rb.kind != "extend"@ && rb.kind != "migration"@ && rb.kind == "rule"@ {
            let id = label_or(rb, "id"@)->Some_0;
            assert(rule_of(rb, RuleScope::TopLevel) is Ok);
            let r = rule_of(rb, RuleScope::TopLevel)->Ok_0;
            assert(next.rules == upsert(acc.rules, id, r));
            crate::compose::lemma_upsert_distinct(acc.rules, id, r);
            law_rule_keys_distinct(rb, RuleScope::TopLevel);
            lemma_upsert_entries(acc.rules, id, r);
            assert forall|i: int| 0 <= i < next.rules.len() implies rule_keys_distinct(#[trigger] next.rules[i].1) by {
                assert(upsert(acc.rules, id, r)[i] == (id, r) || (i < acc.rules.len() && upsert(acc.rules, id, r)[i]
                    == acc.rules[i]));
            }
        }
    }
}

proof fn lemma_profile_items_distinct(items: Seq<SItem>, acc: SProfile)
    requires
        profile_keys_distinct(acc),
        profile_items(items, acc) is Ok,
    ensures
        profile_keys_distinct(profile_items(items, acc)->Ok_0),
    decreases items.len(),
{
    if items.len() > 0 {
        lemma_profile_step_distinct(items[0], acc);
        lemma_profile_items_distinct(items.drop_first(), profile_step(items[0], acc)->Ok_0);
    }
}

/// A profile read from a document (before composition) holds each rule id once, and each of
/// its rules each field key and nested id once.
pub proof fn law_profile_keys_distinct(d: crate::ast::SDocument)
    requires
        profile_of(d) is Ok,
    ensures
        profile_keys_distinct(profile_of(d)->Ok_0),
{
    let pb = crate::profile_spec::first_doc_block(d.blocks, "profile"@)->Some_0;
    let init = SProfile {
        name: label_text(pb)->Some_0,
        version: version_of(pb)->Ok_0,
        rules: Seq::empty(),
        top_level_order: Seq::empty(),
        imports: Seq::empty(),
        extends: Seq::empty(),
        migrations: Seq::empty(),
    };
    lemma_profile_items_distinct(pb.items, init);
}

/// A loaded (composed) profile holds each rule id once.
pub proof fn law_loaded_document_rule_ids_distinct(d: crate::ast::SDocument)
    requires
        load_document_spec(d) is Ok,
    ensures
        vkeys_distinct(load_document_spec(d)->Ok_0.rules),
{
    law_profile_keys_distinct(d);
    let p = profile_of(d)->Ok_0;
    crate::compose::law_compose_keeps_rule_ids(p);
    let q = crate::compose::compose_spec(p)->Ok_0;
    assert forall|i: int, j: int| 0 <= i < j < q.rules.len() implies q.rules[i].0 != q.rules[j].0 by {
        assert(q.rules[i].0 == p.rules[i].0 && q.rules[j].0 == p.rules[j].0);
    }
}

/// A profile loaded from source text holds each rule id once.
pub proof fn law_loaded_rule_ids_distinct(bytes: Seq<u8>)
    requires
        load_source_spec(bytes) is Ok,
    ensures
        vkeys_distinct(load_source_spec(bytes)->Ok_0.rules),
{
    let blocks = crate::grammar::document_of(bytes)->Ok_0;
    law_loaded_document_rule_ids_distinct(crate::ast::SDocument { blocks });
}

} // verus!
