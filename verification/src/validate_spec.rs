//! What validating a document against a profile yields: the structural checks of blocks,
//! fields, variants and cardinalities, in the order they are made.

use vstd::prelude::*;

use crate::ast::{bool_text, preview_text, ref_text, BsolSpan, SAttr, SBlock, SDocument, SEntry, SItem, SListItem, SMap, SValue};
use crate::compose::{lemma_upsert_distinct, vkeys_distinct};
use crate::error::{schema_err, SError};
use crate::profile_spec::{label_text, upsert, vget};
use crate::schema::{Cardinality, LabelRequirement};
use crate::schema_view::{SField, SKind, SProfile, SRule, SVType, SVariant};
use crate::text::decimal;
use crate::validate_field::field_value;
use crate::validated::{list_strings, value_string, SVBlock, SVDoc, SVValue};
use crate::value_type::{first_char, trim};

verus! {

// ---------------------------------------------------------------------------
// Texts of extra fields
// ---------------------------------------------------------------------------

pub open spec fn entries_text(es: Seq<SEntry>, first: bool) -> Seq<char>
    decreases es.len(),
{
    if es.len() == 0 {
        Seq::empty()
    } else {
        (if first {
            Seq::empty()
        } else {
            ", "@
        }) + es[0].key + " = "@ + preview_text(es[0].value) + entries_text(es.drop_first(), false)
    }
}

/// `{key = value, ...}` with each value previewed.
pub open spec fn map_literal(m: SMap) -> Seq<char> {
    "{"@ + entries_text(m.entries, true) + "}"@
}

pub open spec fn item_literal(it: SListItem) -> Seq<char> {
    match it {
        SListItem::Default => "default"@,
        SListItem::QuotedString(q) => "\""@ + q.value + "\""@,
        SListItem::Ident(i) => i,
        SListItem::Bool(b) => bool_text(b),
        SListItem::Ref(r) => ref_text(r),
        SListItem::InlineMap(m) => map_literal(m),
        SListItem::InlineBlock(b) => b.kind + match b.label {
            Some(q) => "\""@ + q.value + "\""@,
            None => Seq::empty(),
        } + " { ... }"@,
    }
}

pub open spec fn items_literal(its: Seq<SListItem>, first: bool) -> Seq<char>
    decreases its.len(),
{
    if its.len() == 0 {
        Seq::empty()
    } else {
        (if first {
            Seq::empty()
        } else {
            ", "@
        }) + item_literal(its[0]) + items_literal(its.drop_first(), false)
    }
}

/// The text an extra (undeclared) field keeps.
pub open spec fn extra_text(v: SValue) -> Seq<char> {
    match v {
        SValue::QuotedString(q) => q.value,
        SValue::Ident(i) => i,
        SValue::Bool(b) => bool_text(b),
        SValue::Ref(r) => ref_text(r),
        SValue::BracketList(l) => "["@ + items_literal(l.items, true) + "]"@,
        SValue::InlineMap(m) => map_literal(m),
    }
}

// ---------------------------------------------------------------------------
// Blocks
// ---------------------------------------------------------------------------

/// The first attribute not among `allowed` is an error (no list allows all).
pub open spec fn attrs_check(attrs: Seq<SAttr>, allowed: Seq<Seq<char>>) -> Result<(), SError>
    decreases attrs.len(),
{
    if allowed.len() == 0 || attrs.len() == 0 {
        Ok(())
    } else if !allowed.contains(attrs[0].name) {
        Err(schema_err(attrs[0].span, "attribute `@"@ + attrs[0].name + "` not allowed here"@))
    } else {
        attrs_check(attrs.drop_first(), allowed)
    }
}

pub open spec fn skind_matches(m: SKind, kind: Seq<char>) -> bool {
    match m {
        SKind::Keyword(k) => k == kind,
        SKind::Keywords(keys) => keys.contains(kind),
        SKind::FreeIdent(except) => !except.contains(kind),
    }
}

/// The first nested rule that applies to blocks of `kind`.
pub open spec fn nested_rule_for(s: Seq<(Seq<char>, SRule)>, kind: Seq<char>) -> Option<SRule>
    decreases s.len(),
{
    if s.len() == 0 {
        None
    } else if skind_matches(s[0].1.kind_match, kind) {
        Some(s[0].1)
    } else {
        nested_rule_for(s.drop_first(), kind)
    }
}

/// A block validated with no fields (a `@schemaless` block, or an undeclared nested block).
pub open spec fn empty_vblock(b: SBlock, rule_id: Seq<char>, raw: Option<Seq<char>>) -> SVBlock {
    SVBlock {
        span: b.span,
        rule_id,
        kind: b.kind,
        label: label_text(b),
        attrs: b.attrs,
        fields: Seq::empty(),
        values: Seq::empty(),
        field_spans: Seq::empty(),
        extras: Seq::empty(),
        nested: Seq::empty(),
        lists: Seq::empty(),
        raw_body: raw,
    }
}

/// What the items of a block have given so far.
pub ghost struct VState {
    pub fields: Seq<(Seq<char>, Seq<char>)>,
    pub values: Seq<(Seq<char>, SVValue)>,
    pub field_spans: Seq<(Seq<char>, BsolSpan)>,
    pub extras: Seq<(Seq<char>, Seq<char>)>,
    pub lists: Seq<(Seq<char>, Seq<Seq<char>>)>,
    pub nested: Seq<SVBlock>,
    pub counts: Seq<(Seq<char>, nat)>,
    pub seen: Seq<Seq<char>>,
}

pub open spec fn empty_state() -> VState {
    VState {
        fields: Seq::empty(),
        values: Seq::empty(),
        field_spans: Seq::empty(),
        extras: Seq::empty(),
        lists: Seq::empty(),
        nested: Seq::empty(),
        counts: Seq::empty(),
        seen: Seq::empty(),
    }
}

/// Count one more block of rule `id`.
pub open spec fn bump(counts: Seq<(Seq<char>, nat)>, id: Seq<char>) -> Seq<(Seq<char>, nat)> {
    match vget(counts, id) {
        Some(n) => upsert(counts, id, n + 1),
        None => upsert(counts, id, 1),
    }
}

/// Record a validated declared field.
pub open spec fn record_field(st: VState, key: Seq<char>, span: BsolSpan, v: SVValue) -> VState {
    VState {
        field_spans: upsert(st.field_spans, key, span),
        lists: match v {
            SVValue::List(items) => upsert(st.lists, key, list_strings(items)),
            _ => st.lists,
        },
        fields: match value_string(v) {
            Some(s) => upsert(st.fields, key, s),
            None => st.fields,
        },
        values: upsert(st.values, key, v),
        ..st
    }
}

/// A block validated against the rule `r`.
pub open spec fn block_spec(b: SBlock, r: SRule) -> Result<SVBlock, SError>
    decreases b,
{
    match attrs_check(b.attrs, r.allowed_attrs) {
        Err(e) => Err(e),
        Ok(_) => match (b.schemaless_body, r.schemaless) {
            (Some(_), false) => Err(
                schema_err(
                    b.span,
                    "block `"@ + b.kind + "` uses `@schemaless` but profile rule `"@ + r.id
                        + "` is structured"@,
                ),
            ),
            (None, true) => Err(
                schema_err(
                    b.span,
                    "block `"@ + b.kind + "` requires `@schemaless` for profile rule `"@ + r.id
                        + "`"@,
                ),
            ),
            (Some(raw), true) => Ok(empty_vblock(b, r.id, Some(raw))),
            (None, false) => if r.label == LabelRequirement::Required && b.label is None {
                Err(schema_err(b.span, "block `"@ + b.kind + "` requires a label"@))
            } else if r.label == LabelRequirement::Forbidden && b.label is Some {
                Err(schema_err(b.span, "block `"@ + b.kind + "` cannot carry a label"@))
            } else {
                match block_items(b, r, b.items, empty_state()) {
                    Err(e) => Err(e),
                    Ok(st) => finish_block(b, r, st),
                }
            },
        },
    }
}

/// The items of the block `b` (from `items` on), validated against `r` onto `st`.
pub open spec fn block_items(b: SBlock, r: SRule, items: Seq<SItem>, st: VState) -> Result<VState, SError>
    decreases items,
{
    if items.len() == 0 {
        Ok(st)
    } else {
        let rest = items.subrange(1, items.len() as int);
        match items[0] {
            SItem::Assignment(a) => if st.seen.contains(a.key) {
                Err(schema_err(a.span, "duplicate field `"@ + a.key + "` on block `"@ + b.kind + "`"@))
            } else {
                let st1 = VState { seen: st.seen.push(a.key), ..st };
                match vget(r.fields, a.key) {
                    Some(f) => match field_value(a, f.value_type, f.constraints, f.list_values) {
                        Err(e) => Err(e),
                        Ok(v) => block_items(b, r, rest, record_field(st1, a.key, a.span, v)),
                    },
                    None => if r.allow_extra_fields {
                        block_items(
                            b,
                            r,
                            rest,
                            VState { extras: upsert(st1.extras, a.key, extra_text(a.value)), ..st1 },
                        )
                    } else {
                        Err(schema_err(a.span, "unknown field `"@ + a.key + "` on block `"@ + b.kind + "`"@))
                    },
                }
            },
            SItem::Block(nb) => match nested_rule_for(r.nested, nb.kind) {
                Some(nr) => match block_spec(nb, nr) {
                    Err(e) => Err(e),
                    Ok(vb) => block_items(
                        b,
                        r,
                        rest,
                        VState { counts: bump(st.counts, nr.id), nested: st.nested.push(vb), ..st },
                    ),
                },
                None => if r.allow_extra_nested {
                    block_items(
                        b,
                        r,
                        rest,
                        VState {
                            nested: st.nested.push(empty_vblock(nb, nb.kind, nb.schemaless_body)),
                            ..st
                        },
                    )
                } else {
                    Err(
                        schema_err(
                            nb.span,
                            "nested block `"@ + nb.kind + "` not allowed inside `"@ + b.kind + "`"@,
                        ),
                    )
                },
            },
        }
    }
}

/// `s.split(',')`.
pub open spec fn split_commas(s: Seq<char>) -> Seq<Seq<char>>
    decreases s.len(),
{
    match first_char(s, ',', 0) {
        None => seq![s],
        Some(i) => if 0 <= i < s.len() {
            seq![s.subrange(0, i)] + split_commas(s.subrange(i + 1, s.len() as int))
        } else {
            seq![s]
        },
    }
}

/// The comma-separated, trimmed parts of a list default.
pub open spec fn default_list(d: Seq<char>) -> Seq<Seq<char>> {
    split_commas(d).map_values(|p: Seq<char>| trim(p))
}

/// Defaults of the fields that got no value.
pub open spec fn apply_defaults(fs: Seq<(Seq<char>, SField)>, st: VState) -> VState
    decreases fs.len(),
{
    if fs.len() == 0 {
        st
    } else {
        let name = fs[0].0;
        let f = fs[0].1;
        let next = if vget(st.values, name) is Some {
            st
        } else {
            match f.constraints.default_value {
                None => st,
                Some(d) => VState {
                    fields: upsert(st.fields, name, d),
                    values: upsert(st.values, name, SVValue::String(d)),
                    lists: if f.value_type is List || f.value_type is ListOf {
                        upsert(st.lists, name, default_list(d))
                    } else {
                        st.lists
                    },
                    ..st
                },
            }
        };
        apply_defaults(fs.drop_first(), next)
    }
}

/// One list of field conditions: when `key` has text `expected`, field `name` must be present
/// (`required`) or absent.
pub open spec fn cond_list(
    name: Seq<char>,
    conds: Seq<(Seq<char>, Seq<char>)>,
    fields: Seq<(Seq<char>, Seq<char>)>,
    span: BsolSpan,
    required: bool,
) -> Result<(), SError>
    decreases conds.len(),
{
    if conds.len() == 0 {
        Ok(())
    } else {
        let key = conds[0].0;
        let expected = conds[0].1;
        if vget(fields, key) == Some(expected) && required && vget(fields, name) is None {
            Err(schema_err(span, "field `"@ + name + "` required when `"@ + key + "` = `"@ + expected + "`"@))
        } else if vget(fields, key) == Some(expected) && !required && vget(fields, name) is Some {
            Err(schema_err(span, "field `"@ + name + "` forbidden when `"@ + key + "` = `"@ + expected + "`"@))
        } else {
            cond_list(name, conds.drop_first(), fields, span, required)
        }
    }
}

/// The `required_if` and `forbid_if` conditions of every field.
pub open spec fn conditional(fs: Seq<(Seq<char>, SField)>, fields: Seq<(Seq<char>, Seq<char>)>, span: BsolSpan) -> Result<(), SError>
    decreases fs.len(),
{
    if fs.len() == 0 {
        Ok(())
    } else {
        match cond_list(fs[0].0, fs[0].1.constraints.required_if, fields, span, true) {
            Err(e) => Err(e),
            Ok(_) => match cond_list(fs[0].0, fs[0].1.constraints.forbid_if, fields, span, false) {
                Err(e) => Err(e),
                Ok(_) => conditional(fs.drop_first(), fields, span),
            },
        }
    }
}

pub open spec fn find_variant(vs: Seq<SVariant>, name: Seq<char>) -> Option<SVariant>
    decreases vs.len(),
{
    if vs.len() == 0 {
        None
    } else if vs[0].name == name {
        Some(vs[0])
    } else {
        find_variant(vs.drop_first(), name)
    }
}

/// The first key with (`present`) or without a field text.
pub open spec fn first_key(keys: Seq<Seq<char>>, fields: Seq<(Seq<char>, Seq<char>)>, present: bool) -> Option<Seq<char>>
    decreases keys.len(),
{
    if keys.len() == 0 {
        None
    } else if (vget(fields, keys[0]) is Some) == present {
        Some(keys[0])
    } else {
        first_key(keys.drop_first(), fields, present)
    }
}

/// The variant selected by the `source` field, else by `kind`, else the first one.
pub open spec fn select_variant(vs: Seq<SVariant>, fields: Seq<(Seq<char>, Seq<char>)>) -> Option<SVariant> {
    match vget(fields, "source"@) {
        Some(s) => find_variant(vs, s),
        None => match vget(fields, "kind"@) {
            Some(k) => find_variant(vs, k),
            None => if vs.len() > 0 {
                Some(vs[0])
            } else {
                None
            },
        },
    }
}

/// The selected variant's required and forbidden fields.
pub open spec fn variants_check(vs: Seq<SVariant>, fields: Seq<(Seq<char>, Seq<char>)>, span: BsolSpan) -> Result<(), SError> {
    if vs.len() == 0 {
        Ok(())
    } else {
        match select_variant(vs, fields) {
            None => Err(schema_err(span, "no matching variant for block fields"@)),
            Some(v) => match first_key(v.require, fields, false) {
                Some(k) => Err(schema_err(span, "variant `"@ + v.name + "` requires field `"@ + k + "`"@)),
                None => match first_key(v.forbid, fields, true) {
                    Some(k) => Err(schema_err(span, "variant `"@ + v.name + "` forbids field `"@ + k + "`"@)),
                    None => Ok(()),
                },
            },
        }
    }
}

/// Every required field is present (as text, list or value).
pub open spec fn required_check(fs: Seq<(Seq<char>, SField)>, st: VState, span: BsolSpan) -> Result<(), SError>
    decreases fs.len(),
{
    if fs.len() == 0 {
        Ok(())
    } else {
        let name = fs[0].0;
        let present = vget(st.fields, name) is Some || vget(st.lists, name) is Some || vget(st.values, name) is Some;
        if fs[0].1.required && !present {
            Err(schema_err(span, "missing required field `"@ + name + "`"@))
        } else {
            required_check(fs.drop_first(), st, span)
        }
    }
}

pub open spec fn count_of(counts: Seq<(Seq<char>, nat)>, id: Seq<char>) -> nat {
    match vget(counts, id) {
        Some(n) => n,
        None => 0,
    }
}

/// The cardinality of each declared nested rule, in declaration order.
pub open spec fn nested_cardinality(
    order: Seq<Seq<char>>,
    nested: Seq<(Seq<char>, SRule)>,
    counts: Seq<(Seq<char>, nat)>,
    span: BsolSpan,
) -> Result<(), SError>
    decreases order.len(),
{
    if order.len() == 0 {
        Ok(())
    } else {
        match vget(nested, order[0]) {
            None => nested_cardinality(order.drop_first(), nested, counts, span),
            Some(nr) => {
                let c = count_of(counts, nr.id);
                if nr.cardinality == Cardinality::One && c != 1 {
                    Err(schema_err(span, "expected exactly one nested `"@ + nr.id + "` block, found "@ + decimal(c)))
                } else if nr.cardinality == Cardinality::ZeroOrOne && c > 1 {
                    Err(schema_err(span, "expected at most one nested `"@ + nr.id + "` block, found "@ + decimal(c)))
                } else {
                    nested_cardinality(order.drop_first(), nested, counts, span)
                }
            },
        }
    }
}

/// The checks made once all items are read, and the validated block.
pub open spec fn finish_block(b: SBlock, r: SRule, st: VState) -> Result<SVBlock, SError> {
    let st2 = apply_defaults(r.fields, st);
    match conditional(r.fields, st2.fields, b.span) {
        Err(e) => Err(e),
        Ok(_) => match variants_check(r.variants, st2.fields, b.span) {
            Err(e) => Err(e),
            Ok(_) => match required_check(r.fields, st2, b.span) {
                Err(e) => Err(e),
                Ok(_) => match nested_cardinality(r.nested_order, r.nested, st2.counts, b.span) {
                    Err(e) => Err(e),
                    Ok(_) => Ok(
                        SVBlock {
                            span: b.span,
                            rule_id: r.id,
                            kind: b.kind,
                            label: label_text(b),
                            attrs: b.attrs,
                            fields: st2.fields,
                            values: st2.values,
                            field_spans: st2.field_spans,
                            extras: st2.extras,
                            nested: st2.nested,
                            lists: st2.lists,
                            raw_body: None,
                        },
                    ),
                },
            },
        },
    }
}

// ---------------------------------------------------------------------------
// Documents
// ---------------------------------------------------------------------------

/// The first top-level rule, in declaration order, that applies to `kind`.
pub open spec fn top_rule_in(p: SProfile, order: Seq<Seq<char>>, kind: Seq<char>) -> Option<SRule>
    decreases order.len(),
{
    if order.len() == 0 {
        None
    } else {
        match vget(p.rules, order[0]) {
            Some(r) => if skind_matches(r.kind_match, kind) {
                Some(r)
            } else {
                top_rule_in(p, order.drop_first(), kind)
            },
            None => top_rule_in(p, order.drop_first(), kind),
        }
    }
}

/// The top-level blocks validated in turn, with the count of blocks per rule id.
pub open spec fn doc_blocks(
    p: SProfile,
    blocks: Seq<SBlock>,
    acc: Seq<SVBlock>,
    counts: Seq<(Seq<char>, nat)>,
) -> Result<(Seq<SVBlock>, Seq<(Seq<char>, nat)>), SError>
    decreases blocks.len(),
{
    if blocks.len() == 0 {
        Ok((acc, counts))
    } else {
        let b = blocks[0];
        match top_rule_in(p, p.top_level_order, b.kind) {
            None => Err(schema_err(b.span, "unknown top-level block `"@ + b.kind + "`"@)),
            Some(r) => match block_spec(b, r) {
                Err(e) => Err(e),
                Ok(vb) => doc_blocks(p, blocks.drop_first(), acc.push(vb), bump(counts, r.id)),
            },
        }
    }
}

/// The cardinality of each top-level rule, in declaration order.
pub open spec fn doc_cardinality(p: SProfile, order: Seq<Seq<char>>, counts: Seq<(Seq<char>, nat)>) -> Result<(), SError>
    decreases order.len(),
{
    if order.len() == 0 {
        Ok(())
    } else {
        match vget(p.rules, order[0]) {
            None => doc_cardinality(p, order.drop_first(), counts),
            Some(r) => {
                let c = count_of(counts, r.id);
                if r.cardinality == Cardinality::One && c != 1 {
                    Err(SError::Schema("profile `"@ + p.name + "` requires exactly one `"@ + r.id + "` block, found "@ + decimal(c)))
                } else if r.cardinality == Cardinality::ZeroOrOne && c > 1 {
                    Err(SError::Schema("profile `"@ + p.name + "` allows at most one `"@ + r.id + "` block, found "@ + decimal(c)))
                } else {
                    doc_cardinality(p, order.drop_first(), counts)
                }
            },
        }
    }
}

/// A document validated against a profile.
pub open spec fn validate_spec(d: SDocument, p: SProfile) -> Result<SVDoc, SError> {
    match doc_blocks(p, d.blocks, Seq::empty(), Seq::empty()) {
        Err(e) => Err(e),
        Ok((vbs, counts)) => match doc_cardinality(p, p.top_level_order, counts) {
            Err(e) => Err(e),
            Ok(_) => Ok(SVDoc { profile: p.name, blocks: vbs }),
        },
    }
}

/// What a validated block keeps of its block.
pub open spec fn keeps_block(vb: SVBlock, b: SBlock) -> bool {
    &&& vb.kind == b.kind
    &&& vb.span == b.span
    &&& vb.label == label_text(b)
    &&& vb.attrs == b.attrs
}

proof fn lemma_block_spec_keeps(b: SBlock, r: SRule)
    requires
        block_spec(b, r) is Ok,
    ensures
        keeps_block(block_spec(b, r)->Ok_0, b),
        block_spec(b, r)->Ok_0.rule_id == r.id,
{
}

proof fn lemma_doc_blocks_keeps(
    p: SProfile,
    blocks: Seq<SBlock>,
    acc: Seq<SVBlock>,
    counts: Seq<(Seq<char>, nat)>,
)
    requires
        doc_blocks(p, blocks, acc, counts) is Ok,
    ensures
        ({
            let vbs = doc_blocks(p, blocks, acc, counts)->Ok_0.0;
            &&& vbs.len() == acc.len() + blocks.len()
            &&& forall|i: int| 0 <= i < acc.len() ==> #[trigger] vbs[i] == acc[i]
            &&& forall|i: int|
                0 <= i < blocks.len() ==> keeps_block(#[trigger] vbs[acc.len() + i], blocks[i])
        }),
    decreases blocks.len(),
{
    if blocks.len() > 0 {
        let b = blocks[0];
        let r = top_rule_in(p, p.top_level_order, b.kind)->Some_0;
        lemma_block_spec_keeps(b, r);
        let vb = block_spec(b, r)->Ok_0;
        lemma_doc_blocks_keeps(p, blocks.drop_first(), acc.push(vb), bump(counts, r.id));
        let vbs = doc_blocks(p, blocks, acc, counts)->Ok_0.0;
        assert forall|i: int| 0 <= i < blocks.len() implies keeps_block(#[trigger] vbs[acc.len() + i], blocks[i]) by {
            if i == 0 {
                assert(acc.push(vb)[acc.len() as int] == vb);
            } else {
                assert(blocks.drop_first()[i - 1] == blocks[i]);
                assert(vbs[acc.push(vb).len() + (i - 1)] == vbs[acc.len() + i]);
            }
        }
        assert forall|i: int| 0 <= i < acc.len() implies #[trigger] vbs[i] == acc[i] by {
            assert(acc.push(vb)[i] == acc[i]);
        }
    }
}

/// Validation keeps the document's shape: a validated document carries the profile's name and
/// one validated block for each block, in order, with the block's kind, span, label and
/// attributes.
pub proof fn law_validate_keeps_blocks(d: SDocument, p: SProfile)
    requires
        validate_spec(d, p) is Ok,
    ensures
        validate_spec(d, p)->Ok_0.profile == p.name,
        validate_spec(d, p)->Ok_0.blocks.len() == d.blocks.len(),
        forall|i: int|
            0 <= i < d.blocks.len() ==> keeps_block(
                #[trigger] validate_spec(d, p)->Ok_0.blocks[i],
                d.blocks[i],
            ),
{
    lemma_doc_blocks_keeps(p, d.blocks, Seq::empty(), Seq::empty());
    let vbs = doc_blocks(p, d.blocks, Seq::empty(), Seq::empty())->Ok_0.0;
    assert forall|i: int| 0 <= i < d.blocks.len() implies keeps_block(
        #[trigger] validate_spec(d, p)->Ok_0.blocks[i],
        d.blocks[i],
    ) by {
        assert(vbs[0 + i] == vbs[i]);
    }
}

/// The maps a validation state keeps hold each key once.
pub open spec fn state_keys_distinct(st: VState) -> bool {
    &&& vkeys_distinct(st.fields)
    &&& vkeys_distinct(st.values)
    &&& vkeys_distinct(st.field_spans)
    &&& vkeys_distinct(st.extras)
    &&& vkeys_distinct(st.lists)
}

proof fn lemma_record_field_distinct(st: VState, key: Seq<char>, span: BsolSpan, v: SVValue)
    requires
        state_keys_distinct(st),
    ensures
        state_keys_distinct(record_field(st, key, span, v)),
{
    lemma_upsert_distinct(st.field_spans, key, span);
    lemma_upsert_distinct(st.values, key, v);
    match v {
        SVValue::List(items) => lemma_upsert_distinct(st.lists, key, list_strings(items)),
        _ => {},
    }
    match value_string(v) {
        Some(t) => lemma_upsert_distinct(st.fields, key, t),
        None => {},
    }
}

proof fn lemma_block_items_distinct(b: SBlock, r: SRule, items: Seq<SItem>, st: VState)
    requires
        state_keys_distinct(st),
        block_items(b, r, items, st) is Ok,
    ensures
        state_keys_distinct(block_items(b, r, items, st)->Ok_0),
    decreases items.len(),
{
    if items.len() > 0 {
        let rest = items.subrange(1, items.len() as int);
        match items[0] {
            SItem::Assignment(a) => {
                let st1 = VState { seen: st.seen.push(a.key), ..st };
                match vget(r.fields, a.key) {
                    Some(f) => {
                        let v = field_value(a, f.value_type, f.constraints, f.list_values)->Ok_0;
                        lemma_record_field_distinct(st1, a.key, a.span, v);
                        lemma_block_items_distinct(b, r, rest, record_field(st1, a.key, a.span, v));
                    },
                    None => {
                        lemma_upsert_distinct(st1.extras, a.key, extra_text(a.value));
                        lemma_block_items_distinct(
                            b,
                            r,
                            rest,
                            VState { extras: upsert(st1.extras, a.key, extra_text(a.value)), ..st1 },
                        );
                    },
                }
            },
            SItem::Block(nb) => match nested_rule_for(r.nested, nb.kind) {
                Some(nr) => {
                    let vb = block_spec(nb, nr)->Ok_0;
                    lemma_block_items_distinct(
                        b,
                        r,
                        rest,
                        VState { counts: bump(st.counts, nr.id), nested: st.nested.push(vb), ..st },
                    );
                },
                None => {
                    lemma_block_items_distinct(
                        b,
                        r,
                        rest,
                        VState { nested: st.nested.push(empty_vblock(nb, nb.kind, nb.schemaless_body)), ..st },
                    );
                },
            },
        }
    }
}

proof fn lemma_apply_defaults_distinct(fs: Seq<(Seq<char>, SField)>, st: VState)
    requires
        state_keys_distinct(st),
    ensures
        state_keys_distinct(apply_defaults(fs, st)),
    decreases fs.len(),
{
    if fs.len() > 0 {
        let name = fs[0].0;
        let f = fs[0].1;
        if vget(st.values, name) is Some {
            lemma_apply_defaults_distinct(fs.drop_first(), st);
        } else {
            match f.constraints.default_value {
                None => lemma_apply_defaults_distinct(fs.drop_first(), st),
                Some(d) => {
                    lemma_upsert_distinct(st.fields, name, d);
                    lemma_upsert_distinct(st.values, name, SVValue::String(d));
                    lemma_upsert_distinct(st.lists, name, default_list(d));
                    let next = VState {
                        fields: upsert(st.fields, name, d),
                        values: upsert(st.values, name, SVValue::String(d)),
                        lists: if f.value_type is List || f.value_type is ListOf {
                            upsert(st.lists, name, default_list(d))
                        } else {
                            st.lists
                        },
                        ..st
                    };
                    lemma_apply_defaults_distinct(fs.drop_first(), next);
                },
            }
        }
    }
}

/// A validated block holds each field, value, field span, extra field and list once.
pub proof fn law_validated_keys_distinct(b: SBlock, r: SRule)
    requires
        block_spec(b, r) is Ok,
    ensures
        ({
            let vb = block_spec(b, r)->Ok_0;
            &&& vkeys_distinct(vb.fields)
            &&& vkeys_distinct(vb.values)
            &&& vkeys_distinct(vb.field_spans)
            &&& vkeys_distinct(vb.extras)
            &&& vkeys_distinct(vb.lists)
        }),
{
    if block_head(b, r) is None {
        assert(state_keys_distinct(empty_state()));
        lemma_block_items_distinct(b, r, b.items, empty_state());
        let st = block_items(b, r, b.items, empty_state())->Ok_0;
        lemma_apply_defaults_distinct(r.fields, st);
    }
}

// ---------------------------------------------------------------------------
// Validation with checks
// ---------------------------------------------------------------------------

/// What the checks were asked, in order: each block, with `None` where they accepted it, else
/// their error.
pub type CheckLog = Seq<(SVBlock, Option<SError>)>;

/// The checks' turn on a structurally validated block `vb`: with no checks it stands; else the
/// next answer in `log` must be about `vb`, and an error there is the outcome.  `None` when the
/// log does not hold that answer.
pub open spec fn check_turn(vb: SVBlock, checks: bool, log: CheckLog) -> Option<(Result<SVBlock, SError>, CheckLog)> {
    if !checks {
        Some((Ok(vb), log))
    } else if log.len() == 0 || log[0].0 != vb {
        None
    } else {
        let rest = log.subrange(1, log.len() as int);
        match log[0].1 {
            None => Some((Ok(vb), rest)),
            Some(e) => Some((Err(e), rest)),
        }
    }
}

/// What is decided of a block before its items are read (its attributes, `@schemaless`, its
/// label); `None` to go on to the items.
pub open spec fn block_head(b: SBlock, r: SRule) -> Option<Result<SVBlock, SError>> {
    match attrs_check(b.attrs, r.allowed_attrs) {
        Err(e) => Some(Err(e)),
        Ok(_) => match (b.schemaless_body, r.schemaless) {
            (Some(_), false) => Some(
                Err(
                    schema_err(
                        b.span,
                        "block `"@ + b.kind + "` uses `@schemaless` but profile rule `"@ + r.id
                            + "` is structured"@,
                    ),
                ),
            ),
            (None, true) => Some(
                Err(
                    schema_err(
                        b.span,
                        "block `"@ + b.kind + "` requires `@schemaless` for profile rule `"@ + r.id
                            + "`"@,
                    ),
                ),
            ),
            (Some(raw), true) => Some(Ok(empty_vblock(b, r.id, Some(raw)))),
            (None, false) => if r.label == LabelRequirement::Required && b.label is None {
                Some(Err(schema_err(b.span, "block `"@ + b.kind + "` requires a label"@)))
            } else if r.label == LabelRequirement::Forbidden && b.label is Some {
                Some(Err(schema_err(b.span, "block `"@ + b.kind + "` cannot carry a label"@)))
            } else {
                None
            },
        },
    }
}

/// A block validated against `r` with the checks' answers taken from `log` in order (when
/// `checks`): each structurally valid block that is not `@schemaless`, nested ones first, is
/// put to the checks once its own checks are through, and their error is the outcome.  The
/// result comes with the part of the log not used.
pub open spec fn block_checked(b: SBlock, r: SRule, checks: bool, log: CheckLog) -> Option<(Result<SVBlock, SError>, CheckLog)>
    decreases b,
{
    match block_head(b, r) {
        Some(o) => Some((o, log)),
        None => match items_checked(b, r, b.items, empty_state(), checks, log) {
            None => None,
            Some((Err(e), rest)) => Some((Err(e), rest)),
            Some((Ok(st), rest)) => match finish_block(b, r, st) {
                Err(e) => Some((Err(e), rest)),
                Ok(vb) => check_turn(vb, checks, rest),
            },
        },
    }
}

/// [`block_items`] with the checks' answers taken from `log`.
pub open spec fn items_checked(
    b: SBlock,
    r: SRule,
    items: Seq<SItem>,
    st: VState,
    checks: bool,
    log: CheckLog,
) -> Option<(Result<VState, SError>, CheckLog)>
    decreases items,
{
    if items.len() == 0 {
        Some((Ok(st), log))
    } else {
        let rest = items.subrange(1, items.len() as int);
        match items[0] {
            SItem::Assignment(a) => if st.seen.contains(a.key) {
                Some((Err(schema_err(a.span, "duplicate field `"@ + a.key + "` on block `"@ + b.kind + "`"@)), log))
            } else {
                let st1 = VState { seen: st.seen.push(a.key), ..st };
                match vget(r.fields, a.key) {
                    Some(f) => match field_value(a, f.value_type, f.constraints, f.list_values) {
                        Err(e) => Some((Err(e), log)),
                        Ok(v) => items_checked(b, r, rest, record_field(st1, a.key, a.span, v), checks, log),
                    },
                    None => if r.allow_extra_fields {
                        items_checked(
                            b,
                            r,
                            rest,
                            VState { extras: upsert(st1.extras, a.key, extra_text(a.value)), ..st1 },
                            checks,
                            log,
                        )
                    } else {
                        Some((Err(schema_err(a.span, "unknown field `"@ + a.key + "` on block `"@ + b.kind + "`"@)), log))
                    },
                }
            },
            SItem::Block(nb) => match nested_rule_for(r.nested, nb.kind) {
                Some(nr) => match block_checked(nb, nr, checks, log) {
                    None => None,
                    Some((Err(e), l2)) => Some((Err(e), l2)),
                    Some((Ok(vb), l2)) => items_checked(
                        b,
                        r,
                        rest,
                        VState { counts: bump(st.counts, nr.id), nested: st.nested.push(vb), ..st },
                        checks,
                        l2,
                    ),
                },
                None => if r.allow_extra_nested {
                    items_checked(
                        b,
                        r,
                        rest,
                        VState {
                            nested: st.nested.push(empty_vblock(nb, nb.kind, nb.schemaless_body)),
                            ..st
                        },
                        checks,
                        log,
                    )
                } else {
                    Some(
                        (
                            Err(
                                schema_err(
                                    nb.span,
                                    "nested block `"@ + nb.kind + "` not allowed inside `"@ + b.kind + "`"@,
                                ),
                            ),
                            log,
                        ),
                    )
                },
            },
        }
    }
}

/// [`doc_blocks`] with the checks' answers taken from `log`.
pub open spec fn doc_checked(
    p: SProfile,
    blocks: Seq<SBlock>,
    acc: Seq<SVBlock>,
    counts: Seq<(Seq<char>, nat)>,
    checks: bool,
    log: CheckLog,
) -> Option<(Result<(Seq<SVBlock>, Seq<(Seq<char>, nat)>), SError>, CheckLog)>
    decreases blocks.len(),
{
    if blocks.len() == 0 {
        Some((Ok((acc, counts)), log))
    } else {
        let b = blocks[0];
        match top_rule_in(p, p.top_level_order, b.kind) {
            None => Some((Err(schema_err(b.span, "unknown top-level block `"@ + b.kind + "`"@)), log)),
            Some(r) => match block_checked(b, r, checks, log) {
                None => None,
                Some((Err(e), l2)) => Some((Err(e), l2)),
                Some((Ok(vb), l2)) => doc_checked(p, blocks.drop_first(), acc.push(vb), bump(counts, r.id), checks, l2),
            },
        }
    }
}

/// A document validated against a profile with the checks' answers taken from `log`.
pub open spec fn validate_checked(d: SDocument, p: SProfile, checks: bool, log: CheckLog) -> Option<(Result<SVDoc, SError>, CheckLog)> {
    match doc_checked(p, d.blocks, Seq::empty(), Seq::empty(), checks, log) {
        None => None,
        Some((Err(e), l)) => Some((Err(e), l)),
        Some((Ok((vbs, counts)), l)) => match doc_cardinality(p, p.top_level_order, counts) {
            Err(e) => Some((Err(e), l)),
            Ok(_) => Some((Ok(SVDoc { profile: p.name, blocks: vbs }), l)),
        },
    }
}

} // verus!
