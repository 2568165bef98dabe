//! Validation of one field value against its field rule.

use vstd::prelude::*;

use crate::ast::{
    bool_text, ref_text, view_entries, view_items, view_list_items, BsolAssignment, BsolBlock,
    BsolItem, BsolListItem, BsolSpan, BsolValue, SAssign, SBlock, SEntry, SItem, SListItem,
    SValue,
};
use crate::coerce::{
    ascii_digits, enum_or_quoted, enum_or_quoted_s, inline_block_s, loose_s, loose_string,
    pattern_matches, require_bool, require_bool_s, require_f64, require_f64_s, require_i64,
    require_i64_s, require_ident, require_ident_s, require_inline_block, require_list_strings,
    require_list_strings_s, require_quoted, require_quoted_s, require_u32, require_u32_s,
    simple_pattern_match, all_ascii_digits,
};
use crate::copy::{copy_ref, copy_value};
use crate::error::{schema_err, BsolError, SError};
use crate::numbers::{parse_i64_text, parse_u32_text};
use crate::profile_spec::{label_text, upsert};
use crate::schema::{has_text, FieldConstraints, ValueType};
use crate::schema_view::{
    opt_texts, texts, view_constraints, view_vtype, view_vtypes, SConstraints, SVType,
};
use crate::text::{cat3, chars_of, join2, owned};
use crate::validated::{
    i64_text, signed_decimal, value_string, view_ventries, view_vvalue, view_vvalues,
    SVValue, ValidatedBlockLite, ValidatedValue,
};

verus! {

broadcast use crate::ast::group_ast_views, crate::validated::group_validated_views, crate::schema_view::group_schema_views;

pub open spec fn vv_res(r: Result<ValidatedValue, BsolError>) -> Result<SVValue, SError> {
    match r {
        Ok(v) => Ok(view_vvalue(v)),
        Err(e) => Err(e@),
    }
}

/// Text of a scalar value, as inline block values keep it.
pub open spec fn raw_text(v: SValue) -> Option<Seq<char>> {
    match v {
        SValue::QuotedString(q) => Some(q.value),
        SValue::Ident(i) => Some(i),
        SValue::Bool(b) => Some(bool_text(b)),
        SValue::Ref(r) => Some(ref_text(r)),
        _ => None,
    }
}

pub open spec fn lite_values(items: Seq<SItem>, acc: Seq<(Seq<char>, SVValue)>) -> Seq<(Seq<char>, SVValue)>
    decreases items.len(),
{
    if items.len() == 0 {
        acc
    } else {
        match items[0] {
            SItem::Assignment(a) => match raw_text(a.value) {
                Some(s) => lite_values(items.drop_first(), upsert(acc, a.key, SVValue::String(s))),
                None => lite_values(items.drop_first(), acc),
            },
            _ => lite_values(items.drop_first(), acc),
        }
    }
}

/// An inline block as a lightweight validated value: its kind, label and scalar assignments.
pub open spec fn lite_of(b: SBlock) -> SVValue {
    SVValue::Block(b.kind, label_text(b), lite_values(b.items, Seq::empty()))
}

pub fn upsert_vvalue(s: &mut Vec<(String, ValidatedValue)>, k: String, v: ValidatedValue)
    ensures
        view_ventries(final(s)@) == upsert(view_ventries(old(s)@), k@, view_vvalue(v)),
{
    let ghost s0 = s@;
    let ghost t0 = view_ventries(s0);
    proof {
        crate::validated::lemma_view_ventries(s0);
        assert forall|i: int| 0 <= i < s0.len() implies #[trigger] s0[i].0@ == t0[i].0 by {}
        crate::decode::lemma_key_index_views(s0, t0, k@);
        crate::schema::lemma_key_index(s0, k@);
    }
    let ghost kk = k@;
    let ghost vv = view_vvalue(v);
    let ghost x = (k, v);
    crate::decode::upsert_entry(s, k, v);
    proof {
        let i = crate::schema::key_index(s0, kk);
        if i < 0 {
            assert(view_ventries(s@) =~= t0.push((kk, vv)));
        } else {
            assert(view_ventries(s@) =~= t0.update(i, (kk, vv)));
        }
    }
}

pub(crate) fn raw_to_string(v: &BsolValue) -> (r: Option<String>)
    ensures
        match r {
            Some(s) => raw_text(v@) == Some(s@),
            None => raw_text(v@) is None,
        },
{
    match v {
        BsolValue::QuotedString(q) => Some(q.value.clone()),
        BsolValue::Ident(i) => Some(i.clone()),
        BsolValue::Bool(b) => Some(crate::ast::bool_string(*b)),
        BsolValue::Ref(r) => Some(r.display()),
        _ => None,
    }
}

impl ValidatedBlockLite {
    /// The kind, label and scalar assignments of an inline block.
    pub fn from_block(block: &BsolBlock) -> (r: Self)
        ensures
            SVValue::Block(r.kind@, crate::schema_view::opt_text(r.label), view_ventries(r.values@))
                == lite_of(block@),
    {
        let ghost vs = view_items(block.items@);
        let mut values: Vec<(String, ValidatedValue)> = Vec::new();
        let mut i: usize = 0;
        proof {
            assert(vs.subrange(0, vs.len() as int) =~= vs);
            assert(view_ventries(values@) =~= Seq::<(Seq<char>, SVValue)>::empty());
        }
        while i < block.items.len()
            invariant
                vs == view_items(block.items@),
                i <= vs.len(),
                lite_values(vs, Seq::empty()) == lite_values(vs.subrange(i as int, vs.len() as int), view_ventries(values@)),
            decreases block.items.len() - i,
        {
            let ghost rest = vs.subrange(i as int, vs.len() as int);
            proof {
                assert(rest[0] == vs[i as int]);
                assert(rest.drop_first() =~= vs.subrange(i + 1, vs.len() as int));
            }
            match &block.items[i] {
                BsolItem::Assignment(a) => {
                    match raw_to_string(&a.value) {
                        Some(s) => {
                            upsert_vvalue(&mut values, a.key.clone(), ValidatedValue::String(s));
                        },
                        None => {},
                    }
                },
                _ => {},
            }
            i = i + 1;
        }
        proof {
            assert(vs.subrange(i as int, vs.len() as int) =~= Seq::<SItem>::empty());
        }
        let label = match &block.label {
            Some(q) => Some(q.value.clone()),
            None => None,
        };
        ValidatedBlockLite { kind: block.kind.clone(), label, values }
    }
}

// ---------------------------------------------------------------------------
// Constraints
// ---------------------------------------------------------------------------

pub open spec fn numeric_check(c: SConstraints, v: int, span: BsolSpan) -> Result<(), SError> {
    if c.min is Some && v < c.min->0 {
        Err(schema_err(span, "value "@ + signed_decimal(v) + " below min "@ + signed_decimal(c.min->0 as int)))
    } else if c.max is Some && v > c.max->0 {
        Err(schema_err(span, "value "@ + signed_decimal(v) + " above max "@ + signed_decimal(c.max->0 as int)))
    } else {
        Ok(())
    }
}

fn numeric_constraints(c: &FieldConstraints, v: i64, span: BsolSpan) -> (r: Result<(), BsolError>)
    ensures
        crate::compose::unit_res(r) == numeric_check(view_constraints(*c), v as int, span),
{
    match c.min {
        Some(m) => {
            if v < m {
                let msg = join2(cat3("value ", i64_text(v).as_str(), " below min "), i64_text(m).as_str());
                return Err(BsolError::schema_at(span, msg));
            }
        },
        None => {},
    }
    match c.max {
        Some(m) => {
            if v > m {
                let msg = join2(cat3("value ", i64_text(v).as_str(), " above max "), i64_text(m).as_str());
                return Err(BsolError::schema_at(span, msg));
            }
        },
        None => {},
    }
    Ok(())
}

pub open spec fn string_check(c: SConstraints, v: SVValue, span: BsolSpan) -> Result<(), SError> {
    match value_string(v) {
        None => Ok(()),
        Some(t) => match c.pattern {
            Some(p) => if pattern_matches(p, t) {
                Ok(())
            } else {
                Err(schema_err(span, "value `"@ + t + "` does not match pattern `"@ + p + "`"@))
            },
            None => Ok(()),
        },
    }
}

fn string_constraints(c: &FieldConstraints, v: &ValidatedValue, span: BsolSpan) -> (r: Result<(), BsolError>)
    ensures
        crate::compose::unit_res(r) == string_check(view_constraints(*c), view_vvalue(*v), span),
{
    match v.as_string() {
        None => Ok(()),
        Some(t) => match &c.pattern {
            Some(p) => {
                if simple_pattern_match(p, &t) {
                    Ok(())
                } else {
                    let msg = join2(join2(cat3("value `", t.as_str(), "` does not match pattern `"), p.as_str()), "`");
                    Err(BsolError::schema_at(span, msg))
                }
            },
            None => Ok(()),
        },
    }
}

// ---------------------------------------------------------------------------
// Typed lists
// ---------------------------------------------------------------------------

/// The value of a list item as one member type, if it has that type.
pub open spec fn try_item(it: SListItem, ty: SVType) -> Option<SVValue> {
    match (it, ty) {
        (SListItem::QuotedString(q), SVType::Quoted) => Some(SVValue::String(q.value)),
        (SListItem::Ident(i), SVType::Ident) => Some(SVValue::String(i)),
        (SListItem::Ident(i), SVType::U32) => if ascii_digits(i) {
            Some(SVValue::U32(
                match parse_u32_text(i) {
                    Some(n) => n,
                    None => 0,
                },
            ))
        } else {
            None
        },
        (SListItem::Bool(b), SVType::Bool) => Some(SVValue::Bool(b)),
        (SListItem::Ref(r), SVType::RefTo(_)) => Some(SVValue::Ref(r)),
        (SListItem::InlineBlock(b), SVType::Inline(kind)) => if b.kind == kind {
            Some(lite_of(b))
        } else {
            None
        },
        _ => None,
    }
}

/// The value of a list item as the first member type it has.
pub open spec fn item_value(it: SListItem, types: Seq<SVType>, span: BsolSpan) -> Result<SVValue, SError>
    decreases types.len(),
{
    if types.len() == 0 {
        Err(schema_err(span, "list item does not match allowed types"@))
    } else {
        match try_item(it, types[0]) {
            Some(v) => Ok(v),
            None => item_value(it, types.drop_first(), span),
        }
    }
}

pub open spec fn item_values(items: Seq<SListItem>, types: Seq<SVType>, span: BsolSpan) -> Result<Seq<SVValue>, SError>
    decreases items.len(),
{
    if items.len() == 0 {
        Ok(Seq::empty())
    } else {
        match item_value(items[0], types, span) {
            Err(e) => Err(e),
            Ok(v) => match item_values(items.drop_first(), types, span) {
                Err(e) => Err(e),
                Ok(rest) => Ok(seq![v] + rest),
            },
        }
    }
}

fn try_item_exec(it: &BsolListItem, ty: &ValueType) -> (r: Option<ValidatedValue>)
    ensures
        match r {
            Some(v) => try_item(it@, view_vtype(*ty)) == Some(view_vvalue(v)),
            None => try_item(it@, view_vtype(*ty)) is None,
        },
{
    match (it, ty) {
        (BsolListItem::QuotedString(q), ValueType::Quoted) => Some(ValidatedValue::String(q.value.clone())),
        (BsolListItem::Ident(i), ValueType::Ident) => Some(ValidatedValue::String(i.clone())),
        (BsolListItem::Ident(i), ValueType::U32) => {
            if all_ascii_digits(i) {
                let n = match crate::numbers::parse_u32(&chars_of(i.as_str())) {
                    Some(n) => n,
                    None => 0,
                };
                Some(ValidatedValue::U32(n))
            } else {
                None
            }
        },
        (BsolListItem::Bool(b), ValueType::Bool) => Some(ValidatedValue::Bool(*b)),
        (BsolListItem::Ref(r), ValueType::RefTo(_)) => Some(ValidatedValue::Ref(copy_ref(r))),
        (BsolListItem::InlineBlock(b), ValueType::Inline(kind)) => {
            if crate::text::string_is(&b.kind, kind.as_str()) {
                Some(ValidatedValue::Block(Box::new(ValidatedBlockLite::from_block(b))))
            } else {
                None
            }
        },
        _ => None,
    }
}

fn item_value_exec(it: &BsolListItem, types: &Vec<ValueType>, span: BsolSpan) -> (r: Result<ValidatedValue, BsolError>)
    ensures
        vv_res(r) == item_value(it@, view_vtypes(types@), span),
{
    let ghost ts = view_vtypes(types@);
    let mut k: usize = 0;
    proof {
        assert(ts.subrange(0, ts.len() as int) =~= ts);
    }
    while k < types.len()
        invariant
            ts == view_vtypes(types@),
            k <= ts.len(),
            item_value(it@, ts, span) == item_value(it@, ts.subrange(k as int, ts.len() as int), span),
        decreases types.len() - k,
    {
        proof {
            let rest = ts.subrange(k as int, ts.len() as int);
            assert(rest[0] == ts[k as int]);
            assert(rest.drop_first() =~= ts.subrange(k + 1, ts.len() as int));
        }
        match try_item_exec(it, &types[k]) {
            Some(v) => {
                return Ok(v);
            },
            None => {},
        }
        k = k + 1;
    }
    proof {
        assert(ts.subrange(k as int, ts.len() as int) =~= Seq::<SVType>::empty());
    }
    Err(BsolError::schema_at(span, owned("list item does not match allowed types")))
}

// ---------------------------------------------------------------------------
// Field values
// ---------------------------------------------------------------------------

pub open spec fn no_constraints() -> SConstraints {
    SConstraints {
        default_value: None,
        min: None,
        max: None,
        pattern: None,
        required_if: Seq::empty(),
        forbid_if: Seq::empty(),
    }
}

/// The value of an assignment read as type `vt`, then checked against the constraints `c`
/// (and, for plain lists, against the allowed list values `lv`).
pub open spec fn field_value(
    a: SAssign,
    vt: SVType,
    c: SConstraints,
    lv: Option<Seq<Seq<char>>>,
) -> Result<SVValue, SError>
    decreases vt, 0nat, 0nat,
{
    let v: Result<SVValue, SError> = match vt {
        SVType::Quoted => match require_quoted_s(a) {
            Err(e) => Err(e),
            Ok(s) => Ok(SVValue::String(s)),
        },
        SVType::Ident => match require_ident_s(a) {
            Err(e) => Err(e),
            Ok(s) => Ok(SVValue::String(s)),
        },
        SVType::U32 => match require_u32_s(a) {
            Err(e) => Err(e),
            Ok(t) => match parse_u32_text(t) {
                None => Err(schema_err(a.span, "invalid u32 `"@ + t + "`"@)),
                Some(n) => match numeric_check(c, n as int, a.span) {
                    Err(e) => Err(e),
                    Ok(_) => Ok(SVValue::U32(n)),
                },
            },
        },
        SVType::I64 => match require_i64_s(a) {
            Err(e) => Err(e),
            Ok(t) => match parse_i64_text(t) {
                None => Err(schema_err(a.span, "invalid i64 `"@ + t + "`"@)),
                Some(n) => match numeric_check(c, n as int, a.span) {
                    Err(e) => Err(e),
                    Ok(_) => Ok(SVValue::I64(n)),
                },
            },
        },
        SVType::F64 => match require_f64_s(a) {
            Err(e) => Err(e),
            Ok(t) => Ok(SVValue::F64(t)),
        },
        SVType::Bool => match require_bool_s(a) {
            Err(e) => Err(e),
            Ok(b) => Ok(SVValue::Bool(b)),
        },
        SVType::Path => match require_quoted_s(a) {
            Err(e) => Err(e),
            Ok(s) => Ok(SVValue::String(s)),
        },
        SVType::Loose => match loose_s(a) {
            Err(e) => Err(e),
            Ok(s) => Ok(SVValue::String(s)),
        },
        SVType::List => match require_list_strings_s(a) {
            Err(e) => Err(e),
            Ok(list) => match lv {
                Some(allowed) => match first_outside(list, allowed) {
                    Some(item) => Err(schema_err(a.span, "unsupported list value `"@ + item + "`"@)),
                    None => Ok(SVValue::List(list.map_values(|s: Seq<char>| SVValue::String(s)))),
                },
                None => Ok(SVValue::List(list.map_values(|s: Seq<char>| SVValue::String(s)))),
            },
        },
        SVType::ListOf(types) => match a.value {
            SValue::BracketList(l) => match item_values(l.items, types, a.span) {
                Err(e) => Err(e),
                Ok(vs) => Ok(SVValue::List(vs)),
            },
            _ => Err(schema_err(a.span, "expected bracket list"@)),
        },
        SVType::MapOf { key: _, value } => match a.value {
            SValue::InlineMap(m) => match map_values(m.entries, *value, Seq::empty()) {
                Err(e) => Err(e),
                Ok(es) => Ok(SVValue::Dict(es)),
            },
            other => Err(schema_err(a.span, crate::coerce::found("inline map"@, other))),
        },
        SVType::RefTo(rule_id) => match a.value {
            SValue::Ref(r) => if r.rule_kind is Some && r.rule_kind->0 != rule_id {
                Err(schema_err(a.span, "expected ref("@ + rule_id + "), found @"@ + r.rule_kind->0 + "/"@ + r.label))
            } else {
                Ok(SVValue::Ref(r))
            },
            other => Err(schema_err(a.span, crate::coerce::found("reference"@, other))),
        },
        SVType::Inline(kind) => match inline_block_s(a) {
            Err(e) => Err(e),
            Ok(b) => if b.kind != kind {
                Err(schema_err(a.span, "expected inline `"@ + kind + "` block"@))
            } else {
                Ok(lite_of(b))
            },
        },
        SVType::EnumOrQuoted(values) => match enum_or_quoted_s(a, values) {
            Err(e) => Err(e),
            Ok(s) => Ok(SVValue::String(s)),
        },
    };
    match v {
        Err(e) => Err(e),
        Ok(val) => match string_check(c, val, a.span) {
            Err(e) => Err(e),
            Ok(_) => Ok(val),
        },
    }
}

/// A validated number lies within its field's bounds: an integer field's value is accepted only
/// when it is at least `min` and at most `max` (where given), and a value above `max` or below
/// `min` is refused.
pub proof fn law_numeric_bounds(a: SAssign, vt: SVType, c: SConstraints, lv: Option<Seq<Seq<char>>>)
    ensures
        field_value(a, vt, c, lv) matches Ok(SVValue::U32(n)) ==> (c.min matches Some(m) ==> m <= n) && (
        c.max matches Some(m) ==> n <= m),
        field_value(a, vt, c, lv) matches Ok(SVValue::I64(n)) ==> (c.min matches Some(m) ==> m <= n) && (
        c.max matches Some(m) ==> n <= m),
        vt == SVType::U32 && require_u32_s(a) is Ok && parse_u32_text(require_u32_s(a)->Ok_0) is Some && ((c.max is Some
            && parse_u32_text(require_u32_s(a)->Ok_0)->Some_0 > c.max->Some_0) || (c.min is Some && parse_u32_text(
            require_u32_s(a)->Ok_0,
        )->Some_0 < c.min->Some_0)) ==> field_value(a, vt, c, lv) is Err,
        vt == SVType::I64 && require_i64_s(a) is Ok && parse_i64_text(require_i64_s(a)->Ok_0) is Some && ((c.max is Some
            && parse_i64_text(require_i64_s(a)->Ok_0)->Some_0 > c.max->Some_0) || (c.min is Some && parse_i64_text(
            require_i64_s(a)->Ok_0,
        )->Some_0 < c.min->Some_0)) ==> field_value(a, vt, c, lv) is Err,
{
}

/// The first list item that is not among `allowed`.
pub open spec fn first_outside(list: Seq<Seq<char>>, allowed: Seq<Seq<char>>) -> Option<Seq<char>>
    decreases list.len(),
{
    if list.len() == 0 {
        None
    } else if !allowed.contains(list[0]) {
        Some(list[0])
    } else {
        first_outside(list.drop_first(), allowed)
    }
}

/// The entries of an inline map, each read as the map's value type.
pub open spec fn map_values(
    entries: Seq<SEntry>,
    vt: SVType,
    acc: Seq<(Seq<char>, SVValue)>,
) -> Result<Seq<(Seq<char>, SVValue)>, SError>
    decreases vt, 1nat, entries.len(),
{
    if entries.len() == 0 {
        Ok(acc)
    } else {
        let e = entries[0];
        let fake = SAssign { span: e.span, attrs: Seq::empty(), key: e.key, value: e.value };
        match field_value(fake, vt, no_constraints(), None) {
            Err(err) => Err(err),
            Ok(v) => map_values(entries.drop_first(), vt, upsert(acc, e.key, v)),
        }
    }
}

fn no_constraints_exec() -> (r: FieldConstraints)
    ensures
        view_constraints(r) == no_constraints(),
{
    let r = FieldConstraints {
        default_value: None,
        min: None,
        max: None,
        pattern: None,
        required_if: Vec::new(),
        forbid_if: Vec::new(),
    };
    proof {
        assert(crate::schema_view::text_pairs(r.required_if@) =~= Seq::<(Seq<char>, Seq<char>)>::empty());
        assert(crate::schema_view::text_pairs(r.forbid_if@) =~= Seq::<(Seq<char>, Seq<char>)>::empty());
    }
    r
}

/// The entries of an inline map, each read as `vt`.
#[verifier::loop_isolation(false)]
fn map_values_exec(m: &crate::ast::BsolInlineMap, vt: &ValueType) -> (r: Result<Vec<(String, ValidatedValue)>, BsolError>)
    ensures
        match r {
            Ok(v) => map_values(view_entries(m.entries@), view_vtype(*vt), Seq::empty()) == Ok::<Seq<(Seq<char>, SVValue)>, SError>(view_ventries(v@)),
            Err(e) => map_values(view_entries(m.entries@), view_vtype(*vt), Seq::empty()) == Err::<Seq<(Seq<char>, SVValue)>, SError>(e@),
        },
    decreases vt, 1nat,
{
    let ghost es = view_entries(m.entries@);
    let ghost tv = view_vtype(*vt);
    let mut out: Vec<(String, ValidatedValue)> = Vec::new();
    let none: Option<Vec<String>> = None;
    let c = no_constraints_exec();
    let mut i: usize = 0;
    proof {
        assert(es.subrange(0, es.len() as int) =~= es);
        assert(view_ventries(out@) =~= Seq::<(Seq<char>, SVValue)>::empty());
    }
    while i < m.entries.len()
        invariant
            es == view_entries(m.entries@),
            i <= es.len(),
            map_values(es, tv, Seq::empty()) == map_values(es.subrange(i as int, es.len() as int), tv, view_ventries(out@)),
        decreases m.entries.len() - i,
    {
        let ghost rest = es.subrange(i as int, es.len() as int);
        proof {
            assert(rest[0] == es[i as int]);
            assert(rest.drop_first() =~= es.subrange(i + 1, es.len() as int));
        }
        let e = &m.entries[i];
        let fake = BsolAssignment { span: e.span, attrs: Vec::new(), key: e.key.clone(), value: copy_value(&e.value) };
        proof {
            assert(crate::ast::view_attrs(fake.attrs@) =~= Seq::<crate::ast::SAttr>::empty());
            assert(fake@ == SAssign { span: es[i as int].span, attrs: Seq::empty(), key: es[i as int].key, value: es[i as int].value });
            assert(opt_texts(none) == None::<Seq<Seq<char>>>);
        }
        match validate_field_value(&fake, vt, &c, &none) {
            Err(err) => {
                return Err(err);
            },
            Ok(v) => {
                upsert_vvalue(&mut out, e.key.clone(), v);
            },
        }
        i = i + 1;
    }
    proof {
        assert(es.subrange(i as int, es.len() as int) =~= Seq::<SEntry>::empty());
    }
    Ok(out)
}

/// The value of an assignment read as type `vt`, checked against the constraints `c` and,
/// for plain lists, the allowed list values `lv`.
#[verifier::loop_isolation(false)]
#[verifier::rlimit(80)]
pub fn validate_field_value(
    a: &BsolAssignment,
    vt: &ValueType,
    c: &FieldConstraints,
    lv: &Option<Vec<String>>,
) -> (r: Result<ValidatedValue, BsolError>)
    ensures
        vv_res(r) == field_value(a@, view_vtype(*vt), view_constraints(*c), opt_texts(*lv)),
    decreases vt, 0nat,
{
    let v = match vt {
        ValueType::Quoted => match require_quoted(a) {
            Err(e) => {
                return Err(e);
            },
            Ok(s) => ValidatedValue::String(s),
        },
        ValueType::Ident => match require_ident(a) {
            Err(e) => {
                return Err(e);
            },
            Ok(s) => ValidatedValue::String(s),
        },
        ValueType::U32 => {
            let t = match require_u32(a) {
                Err(e) => {
                    return Err(e);
                },
                Ok(t) => t,
            };
            match crate::numbers::parse_u32(&chars_of(t.as_str())) {
                None => {
                    return Err(BsolError::schema_at(a.span, cat3("invalid u32 `", t.as_str(), "`")));
                },
                Some(n) => {
                    match numeric_constraints(c, n as i64, a.span) {
                        Err(e) => {
                            return Err(e);
                        },
                        Ok(()) => {},
                    }
                    ValidatedValue::U32(n)
                },
            }
        },
        ValueType::I64 => {
            let t = match require_i64(a) {
                Err(e) => {
                    return Err(e);
                },
                Ok(t) => t,
            };
            match crate::numbers::parse_i64(&chars_of(t.as_str())) {
                None => {
                    return Err(BsolError::schema_at(a.span, cat3("invalid i64 `", t.as_str(), "`")));
                },
                Some(n) => {
                    match numeric_constraints(c, n, a.span) {
                        Err(e) => {
                            return Err(e);
                        },
                        Ok(()) => {},
                    }
                    ValidatedValue::I64(n)
                },
            }
        },
        ValueType::F64 => match require_f64(a) {
            Err(e) => {
                return Err(e);
            },
            Ok(t) => ValidatedValue::F64(t),
        },
        ValueType::Bool => match require_bool(a) {
            Err(e) => {
                return Err(e);
            },
            Ok(b) => ValidatedValue::Bool(b),
        },
        ValueType::Path => match require_quoted(a) {
            Err(e) => {
                return Err(e);
            },
            Ok(s) => ValidatedValue::String(s),
        },
        ValueType::Loose => match loose_string(a) {
            Err(e) => {
                return Err(e);
            },
            Ok(s) => ValidatedValue::String(s),
        },
        ValueType::List => {
            let list = match require_list_strings(a) {
                Err(e) => {
                    return Err(e);
                },
                Ok(l) => l,
            };
            let ghost ls = texts(list@);
            match lv {
                Some(allowed) => {
                    let mut k: usize = 0;
                    proof {
                        assert(ls.subrange(0, ls.len() as int) =~= ls);
                    }
                    while k < list.len()
                        invariant
                            ls == texts(list@),
                            k <= ls.len(),
                            first_outside(ls, texts(allowed@)) == first_outside(ls.subrange(k as int, ls.len() as int), texts(allowed@)),
                        decreases list.len() - k,
                    {
                        proof {
                            let rest = ls.subrange(k as int, ls.len() as int);
                            assert(rest[0] == ls[k as int]);
                            assert(rest.drop_first() =~= ls.subrange(k + 1, ls.len() as int));
                            crate::coerce::lemma_has_text(allowed@, list@[k as int]@);
                        }
                        if !crate::schema::contains_text(allowed, list[k].as_str()) {
                            return Err(BsolError::schema_at(a.span, cat3("unsupported list value `", list[k].as_str(), "`")));
                        }
                        k = k + 1;
                    }
                    proof {
                        assert(ls.subrange(k as int, ls.len() as int) =~= Seq::<Seq<char>>::empty());
                    }
                },
                None => {},
            }
            let mut out: Vec<ValidatedValue> = Vec::new();
            let mut k: usize = 0;
            let mut list = list;
            let n = list.len();
            while k < n
                invariant
                    n == list@.len(),
                    ls == texts(list@),
                    k <= n,
                    out@.len() == k,
                    forall|q: int| 0 <= q < k ==> view_vvalue(#[trigger] out@[q]) == SVValue::String(ls[q]),
                decreases n - k,
            {
                out.push(ValidatedValue::String(list[k].clone()));
                k = k + 1;
            }
            proof {
                assert(view_vvalues(out@) =~= ls.map_values(|s: Seq<char>| SVValue::String(s)));
            }
            ValidatedValue::List(out)
        },
        ValueType::ListOf(types) => match &a.value {
            BsolValue::BracketList(l) => {
                let ghost its = view_list_items(l.items@);
                let ghost ts = view_vtypes(types@);
                let mut out: Vec<ValidatedValue> = Vec::new();
                let mut k: usize = 0;
                proof {
                    assert(its.subrange(0, its.len() as int) =~= its);
                    assert(view_vvalues(out@) =~= Seq::<SVValue>::empty());
                    match item_values(its, ts, a.span) {
                        Ok(r2) => {
                            assert(Seq::<SVValue>::empty() + r2 =~= r2);
                        },
                        Err(_) => {},
                    }
                }
                while k < l.items.len()
                    invariant
                        its == view_list_items(l.items@),
                        ts == view_vtypes(types@),
                        k <= its.len(),
                        item_values(its, ts, a.span) == match item_values(its.subrange(k as int, its.len() as int), ts, a.span) {
                            Ok(r2) => Ok(view_vvalues(out@) + r2),
                            Err(e) => Err(e),
                        },
                    decreases l.items.len() - k,
                {
                    let ghost rest = its.subrange(k as int, its.len() as int);
                    let ghost out0 = out@;
                    proof {
                        assert(rest[0] == its[k as int]);
                        assert(rest.drop_first() =~= its.subrange(k + 1, its.len() as int));
                    }
                    match item_value_exec(&l.items[k], types, a.span) {
                        Err(e) => {
                            return Err(e);
                        },
                        Ok(x) => {
                            out.push(x);
                            proof {
                                crate::validated::lemma_view_vvalues(out@);
                                crate::validated::lemma_view_vvalues(out0);
                                assert(view_vvalues(out@) =~= view_vvalues(out0).push(view_vvalue(x)));
                                match item_values(its.subrange(k + 1, its.len() as int), ts, a.span) {
                                    Ok(r2) => {
                                        assert(view_vvalues(out0) + (seq![view_vvalue(x)] + r2) =~= view_vvalues(out@) + r2);
                                    },
                                    Err(_) => {},
                                }
                            }
                        },
                    }
                    k = k + 1;
                }
                proof {
                    assert(its.subrange(k as int, its.len() as int) =~= Seq::<SListItem>::empty());
                    assert(view_vvalues(out@) + Seq::<SVValue>::empty() =~= view_vvalues(out@));
                }
                ValidatedValue::List(out)
            },
            _ => {
                return Err(BsolError::schema_at(a.span, owned("expected bracket list")));
            },
        },
        ValueType::MapOf { key: _, value } => match &a.value {
            BsolValue::InlineMap(m) => {
                proof {
                    assert(decreases_to!(*vt => (*vt)->MapOf_value));
                }
                match map_values_exec(m, value) {
                    Err(e) => {
                        return Err(e);
                    },
                    Ok(es) => ValidatedValue::Dict(es),
                }
            },
            other => {
                return Err(BsolError::schema_at(a.span, crate::coerce::found_msg("inline map", other)));
            },
        },
        ValueType::RefTo(rule_id) => match &a.value {
            BsolValue::Ref(r) => {
                match &r.rule_kind {
                    Some(k) => {
                        if !crate::text::string_is(k, rule_id.as_str()) {
                            let m1 = cat3("expected ref(", rule_id.as_str(), "), found @");
                            let m2 = cat3(m1.as_str(), k.as_str(), "/");
                            return Err(BsolError::schema_at(a.span, join2(m2, r.label.as_str())));
                        }
                    },
                    None => {},
                }
                ValidatedValue::Ref(copy_ref(r))
            },
            other => {
                return Err(BsolError::schema_at(a.span, crate::coerce::found_msg("reference", other)));
            },
        },
        ValueType::Inline(kind) => {
            let b = match require_inline_block(a) {
                Err(e) => {
                    return Err(e);
                },
                Ok(b) => b,
            };
            if !crate::text::string_is(&b.kind, kind.as_str()) {
                return Err(BsolError::schema_at(a.span, cat3("expected inline `", kind.as_str(), "` block")));
            }
            ValidatedValue::Block(Box::new(ValidatedBlockLite::from_block(b)))
        },
        ValueType::EnumOrQuoted(values) => match enum_or_quoted(a, values) {
            Err(e) => {
                return Err(e);
            },
            Ok(s) => ValidatedValue::String(s),
        },
    };
    match string_constraints(c, &v, a.span) {
        Err(e) => Err(e),
        Ok(()) => Ok(v),
    }
}

} // verus!
