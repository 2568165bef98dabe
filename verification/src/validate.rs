//! Validate a parsed document against a schema profile.

use vstd::prelude::*;

use crate::ast::{
    view_attrs, view_blocks, view_entries, view_items, view_list_items, BsolAttribute, BsolBlock,
    BsolBracketList, BsolDocument, BsolInlineMap, BsolItem, BsolListItem, BsolSpan, BsolValue,
    SAttr, SBlock, SEntry, SItem, SListItem,
};
use crate::compose::unit_res;
use crate::copy::copy_attrs;
use crate::decode::{lemma_key_index_views, upsert_entry, upsert_pair};
use crate::error::{BsolError, SError};
use crate::profile_spec::{label_text, upsert, vget, vkey_index};
use crate::schema::{
    contains_text, kind_matches, key_index, lemma_key_index, lemma_nested_match_index,
    nested_match_index, BlockRule, Cardinality, FieldRule, KindMatch, LabelRequirement,
    SchemaProfile, ValueType, VariantRule,
};
use crate::schema_view::{
    lemma_view_rules, opt_text, text_pairs, texts, view_field, view_fields, view_kind,
    view_profile, view_rule, view_rules, view_variant, view_variants, SField, SRule, SVariant,
};
use crate::text::{cat3, chars_of, decimal, decimal_text, join2, owned, string_is, sub_text};
use crate::validate_field::{upsert_vvalue, validate_field_value};
use crate::validate_spec::{
    apply_defaults, attrs_check, block_items, block_spec, bump, cond_list, conditional, count_of,
    default_list, doc_blocks, doc_cardinality, empty_state, empty_vblock, entries_text,
    extra_text, find_variant, finish_block, first_key, item_literal, items_literal, map_literal,
    nested_cardinality, nested_rule_for, record_field, required_check, select_variant,
    skind_matches, split_commas, top_rule_in, validate_spec, variants_check, VState,
    block_checked, block_head, check_turn, doc_checked, items_checked, validate_checked, CheckLog,
};
use crate::validated::{
    list_pairs, list_strings, span_pairs, value_string, view_vblock, view_vblocks, view_ventries,
    SVBlock, SVDoc, SVValue, ValidatedBlock, ValidatedDocument, ValidatedValue,
};

verus! {

broadcast use crate::ast::group_ast_views, crate::validated::group_validated_views, crate::schema_view::group_schema_views;

/// What a check's result says: `None` for acceptance, else the error.
pub open spec fn outcome_of(r: Result<(), BsolError>) -> Option<SError> {
    match r {
        Ok(()) => None,
        Err(e) => Some(e@),
    }
}

/// Semantic checks run on each structurally valid block (applications register them by rule
/// id).
pub trait RuleValidators {
    /// May the checks answer `outcome` (`None` to accept, else the error) on `block`?  Checks
    /// that describe nothing of themselves may answer anything.
    open spec fn answers(&self, block: SVBlock, outcome: Option<SError>) -> bool {
        true
    }

    fn run(&self, block: &ValidatedBlock) -> (r: Result<(), BsolError>)
        ensures
            self.answers(block@, outcome_of(r)),
    ;
}

/// No semantic checks.
pub struct NoValidators;

/// The checks accept every block they may be asked about.
pub open spec fn accepts_all<V: RuleValidators>(v: &V) -> bool {
    forall|b: SVBlock, o: Option<SError>| #[trigger] v.answers(b, o) ==> o is None
}

/// The checks ran on a validated block, and accepted it, unless it is `@schemaless`.
pub open spec fn checked<V: RuleValidators>(reg: Option<&V>, vb: SVBlock) -> bool {
    match reg {
        None => true,
        Some(v) => vb.raw_body is Some || v.answers(vb, None),
    }
}

/// Validation runs no check at all: the registry is absent or accepts everything.
pub open spec fn unchecked<V: RuleValidators>(reg: Option<&V>) -> bool {
    match reg {
        None => true,
        Some(v) => accepts_all(v),
    }
}

/// The block is refused, or accepted as `@schemaless`, before any check could run on it.
pub open spec fn refused_or_raw(b: SBlock, r: SRule) -> bool {
    attrs_check(b.attrs, r.allowed_attrs) is Err || b.schemaless_body is Some || r.schemaless
        || (r.label == LabelRequirement::Required && b.label is None)
        || (r.label == LabelRequirement::Forbidden && b.label is Some)
}

/// Every answer in the log is one the checks may give; with no checks the log is empty.
pub open spec fn answered_in_turn<V: RuleValidators>(log: CheckLog, reg: Option<&V>) -> bool {
    match reg {
        None => log.len() == 0,
        Some(v) => forall|j: int| 0 <= j < log.len() ==> #[trigger] v.answers(log[j].0, log[j].1),
    }
}

impl RuleValidators for NoValidators {
    /// They accept every block.
    open spec fn answers(&self, block: SVBlock, outcome: Option<SError>) -> bool {
        outcome is None
    }

    fn run(&self, block: &ValidatedBlock) -> (r: Result<(), BsolError>)
        ensures
            r is Ok,
    {
        Ok(())
    }
}

// ---------------------------------------------------------------------------
// Extra field texts
// ---------------------------------------------------------------------------

fn format_map_literal(m: &BsolInlineMap) -> (r: String)
    ensures
        r@ == map_literal(m@),
{
    let ghost es = view_entries(m.entries@);
    let mut out = owned("{");
    let mut i: usize = 0;
    proof {
        assert(es.subrange(0, es.len() as int) =~= es);
    }
    while i < m.entries.len()
        invariant
            es == view_entries(m.entries@),
            i <= es.len(),
            out@ + entries_text(es.subrange(i as int, es.len() as int), i == 0) == "{"@ + entries_text(es, true),
        decreases m.entries.len() - i,
    {
        let ghost rest = es.subrange(i as int, es.len() as int);
        let ghost o0 = out@;
        proof {
            assert(rest[0] == es[i as int]);
            assert(rest.drop_first() =~= es.subrange(i + 1, es.len() as int));
        }
        if i > 0 {
            out = join2(out, ", ");
        }
        out = join2(out, m.entries[i].key.as_str());
        out = join2(out, " = ");
        let p = m.entries[i].value.preview();
        out = join2(out, p.as_str());
        proof {
            let sep: Seq<char> = if i == 0 { Seq::empty() } else { ", "@ };
            assert(out@ == o0 + sep + es[i as int].key + " = "@ + crate::ast::preview_text(es[i as int].value));
            assert(o0 + (sep + es[i as int].key + " = "@ + crate::ast::preview_text(es[i as int].value)
                + entries_text(es.subrange(i + 1, es.len() as int), false))
                =~= out@ + entries_text(es.subrange(i + 1, es.len() as int), false));
        }
        i = i + 1;
    }
    proof {
        assert(es.subrange(i as int, es.len() as int) =~= Seq::<SEntry>::empty());
        assert(out@ + Seq::<char>::empty() =~= out@);
    }
    join2(out, "}")
}

fn format_item_literal(it: &BsolListItem) -> (r: String)
    ensures
        r@ == item_literal(it@),
{
    match it {
        BsolListItem::Default => owned("default"),
        BsolListItem::QuotedString(q) => cat3("\"", q.value.as_str(), "\""),
        BsolListItem::Ident(i) => i.clone(),
        BsolListItem::Bool(b) => crate::ast::bool_string(*b),
        BsolListItem::Ref(r) => r.display(),
        BsolListItem::InlineMap(m) => format_map_literal(m),
        BsolListItem::InlineBlock(b) => {
            let mut out = b.kind.clone();
            match &b.label {
                Some(q) => {
                    out = join2(join2(join2(out, "\""), q.value.as_str()), "\"");
                },
                None => {
                    proof {
                        assert(out@ + Seq::<char>::empty() =~= out@);
                    }
                },
            }
            join2(out, " { ... }")
        },
    }
}

fn format_bracket_list_literal(l: &BsolBracketList) -> (r: String)
    ensures
        r@ == "["@ + items_literal(view_list_items(l.items@), true) + "]"@,
{
    let ghost its = view_list_items(l.items@);
    let mut out = owned("[");
    let mut i: usize = 0;
    proof {
        assert(its.subrange(0, its.len() as int) =~= its);
    }
    while i < l.items.len()
        invariant
            its == view_list_items(l.items@),
            i <= its.len(),
            out@ + items_literal(its.subrange(i as int, its.len() as int), i == 0) == "["@ + items_literal(its, true),
        decreases l.items.len() - i,
    {
        let ghost rest = its.subrange(i as int, its.len() as int);
        let ghost o0 = out@;
        proof {
            assert(rest[0] == its[i as int]);
            assert(rest.drop_first() =~= its.subrange(i + 1, its.len() as int));
        }
        if i > 0 {
            out = join2(out, ", ");
        }
        let t = format_item_literal(&l.items[i]);
        out = join2(out, t.as_str());
        proof {
            let sep: Seq<char> = if i == 0 { Seq::empty() } else { ", "@ };
            assert(o0 + (sep + item_literal(its[i as int]) + items_literal(its.subrange(i + 1, its.len() as int), false))
                =~= out@ + items_literal(its.subrange(i + 1, its.len() as int), false));
        }
        i = i + 1;
    }
    proof {
        assert(its.subrange(i as int, its.len() as int) =~= Seq::<SListItem>::empty());
        assert(out@ + Seq::<char>::empty() =~= out@);
    }
    join2(out, "]")
}

/// The text an extra (undeclared) field keeps.
fn extra_field_value(v: &BsolValue) -> (r: String)
    ensures
        r@ == extra_text(v@),
{
    match v {
        BsolValue::QuotedString(q) => q.value.clone(),
        BsolValue::Ident(i) => i.clone(),
        BsolValue::Bool(b) => crate::ast::bool_string(*b),
        BsolValue::Ref(r) => r.display(),
        BsolValue::BracketList(l) => format_bracket_list_literal(l),
        BsolValue::InlineMap(m) => format_map_literal(m),
    }
}

// ---------------------------------------------------------------------------
// Block checks
// ---------------------------------------------------------------------------

fn validate_block_attrs(attrs: &Vec<BsolAttribute>, allowed: &Vec<String>) -> (r: Result<(), BsolError>)
    ensures
        unit_res(r) == attrs_check(view_attrs(attrs@), texts(allowed@)),
{
    if allowed.len() == 0 {
        return Ok(());
    }
    let ghost avs = view_attrs(attrs@);
    let mut i: usize = 0;
    proof {
        assert(avs.subrange(0, avs.len() as int) =~= avs);
    }
    while i < attrs.len()
        invariant
            avs == view_attrs(attrs@),
            allowed@.len() > 0,
            i <= avs.len(),
            attrs_check(avs, texts(allowed@)) == attrs_check(avs.subrange(i as int, avs.len() as int), texts(allowed@)),
        decreases attrs.len() - i,
    {
        proof {
            let rest = avs.subrange(i as int, avs.len() as int);
            assert(rest[0] == avs[i as int]);
            assert(rest.drop_first() =~= avs.subrange(i + 1, avs.len() as int));
            crate::coerce::lemma_has_text(allowed@, attrs@[i as int].name@);
        }
        if !contains_text(allowed, attrs[i].name.as_str()) {
            return Err(BsolError::schema_at(attrs[i].span, cat3("attribute `@", attrs[i].name.as_str(), "` not allowed here")));
        }
        i = i + 1;
    }
    proof {
        assert(avs.subrange(i as int, avs.len() as int) =~= Seq::<SAttr>::empty());
    }
    Ok(())
}

proof fn lemma_kind_views(m: KindMatch, kind: Seq<char>)
    ensures
        kind_matches(m, kind) == skind_matches(view_kind(m), kind),
{
    match m {
        KindMatch::Keyword(_) => {},
        KindMatch::Keywords(keys) => {
            crate::coerce::lemma_has_text(keys@, kind);
        },
        KindMatch::FreeIdent { except } => {
            crate::coerce::lemma_has_text(except@, kind);
        },
    }
}

proof fn lemma_nested_rule_for(s: Seq<(String, BlockRule)>, kind: Seq<char>)
    ensures
        nested_match_index(s, kind) >= 0 ==> nested_rule_for(view_rules(s), kind) == Some(view_rule(s[nested_match_index(s, kind)].1)),
        nested_match_index(s, kind) < 0 ==> nested_rule_for(view_rules(s), kind) is None,
    decreases s.len(),
{
    lemma_view_rules(s);
    if s.len() > 0 {
        lemma_kind_views(s[0].1.kind_match, kind);
        assert(view_rules(s)[0] == (s[0].0@, view_rule(s[0].1)));
        let t = s.drop_first();
        lemma_nested_rule_for(t, kind);
        lemma_view_rules(t);
        assert(view_rules(s).drop_first() =~= view_rules(t));
        lemma_nested_match_index(t, kind);
        if !kind_matches(s[0].1.kind_match, kind) && nested_match_index(t, kind) >= 0 {
            assert(nested_match_index(s, kind) == nested_match_index(t, kind) + 1);
            assert(s[nested_match_index(s, kind)] == t[nested_match_index(t, kind)]);
        }
    }
}

/// What the items of a block have given so far.
pub struct BlockState {
    pub fields: Vec<(String, String)>,
    pub values: Vec<(String, ValidatedValue)>,
    pub field_spans: Vec<(String, BsolSpan)>,
    pub extras: Vec<(String, String)>,
    pub lists: Vec<(String, Vec<String>)>,
    pub nested: Vec<ValidatedBlock>,
    pub counts: Vec<(String, usize)>,
    pub seen: Vec<String>,
}

pub open spec fn count_pairs(s: Seq<(String, usize)>) -> Seq<(Seq<char>, nat)> {
    s.map_values(|p: (String, usize)| (p.0@, p.1 as nat))
}

impl BlockState {
    pub open spec fn view(&self) -> VState {
        VState {
            fields: text_pairs(self.fields@),
            values: view_ventries(self.values@),
            field_spans: span_pairs(self.field_spans@),
            extras: text_pairs(self.extras@),
            lists: list_pairs(self.lists@),
            nested: view_vblocks(self.nested@),
            counts: count_pairs(self.counts@),
            seen: texts(self.seen@),
        }
    }

    pub open spec fn counts_below(&self, n: nat) -> bool {
        forall|i: int| 0 <= i < self.counts@.len() ==> #[trigger] self.counts@[i].1 <= n
    }
}

fn upsert_span(s: &mut Vec<(String, BsolSpan)>, k: String, v: BsolSpan)
    ensures
        span_pairs(final(s)@) == upsert(span_pairs(old(s)@), k@, v),
{
    let ghost s0 = s@;
    let ghost t0 = span_pairs(s0);
    proof {
        assert forall|i: int| 0 <= i < s0.len() implies #[trigger] s0[i].0@ == t0[i].0 by {}
        lemma_key_index_views(s0, t0, k@);
        lemma_key_index(s0, k@);
    }
    let ghost kk = k@;
    upsert_entry(s, k, v);
    proof {
        let i = key_index(s0, kk);
        if i < 0 {
            assert(span_pairs(s@) =~= t0.push((kk, v)));
        } else {
            assert(span_pairs(s@) =~= t0.update(i, (kk, v)));
        }
    }
}

fn upsert_list(s: &mut Vec<(String, Vec<String>)>, k: String, v: Vec<String>)
    ensures
        list_pairs(final(s)@) == upsert(list_pairs(old(s)@), k@, texts(v@)),
{
    let ghost s0 = s@;
    let ghost t0 = list_pairs(s0);
    proof {
        assert forall|i: int| 0 <= i < s0.len() implies #[trigger] s0[i].0@ == t0[i].0 by {}
        lemma_key_index_views(s0, t0, k@);
        lemma_key_index(s0, k@);
    }
    let ghost kk = k@;
    let ghost vv = texts(v@);
    upsert_entry(s, k, v);
    proof {
        let i = key_index(s0, kk);
        if i < 0 {
            assert(list_pairs(s@) =~= t0.push((kk, vv)));
        } else {
            assert(list_pairs(s@) =~= t0.update(i, (kk, vv)));
        }
    }
}

/// Count one more block of rule `id`.
fn bump_count(s: &mut Vec<(String, usize)>, id: &String, bound: usize)
    requires
        forall|i: int| 0 <= i < old(s)@.len() ==> #[trigger] old(s)@[i].1 <= bound,
        bound < usize::MAX,
    ensures
        count_pairs(final(s)@) == bump(count_pairs(old(s)@), id@),
        forall|i: int| 0 <= i < final(s)@.len() ==> #[trigger] final(s)@[i].1 <= bound + 1,
{
    let ghost s0 = s@;
    let ghost t0 = count_pairs(s0);
    proof {
        assert forall|i: int| 0 <= i < s0.len() implies #[trigger] s0[i].0@ == t0[i].0 by {}
        lemma_key_index_views(s0, t0, id@);
        lemma_key_index(s0, id@);
    }
    match crate::schema::find_key(s, id.as_str()) {
        Some(j) => {
            let n = s[j].1 + 1;
            s.set(j, (id.clone(), n));
            proof {
                assert(count_pairs(s@) =~= t0.update(j as int, (id@, (t0[j as int].1 + 1) as nat)));
            }
        },
        None => {
            s.push((id.clone(), 1));
            proof {
                assert(count_pairs(s@) =~= t0.push((id@, 1nat)));
            }
        },
    }
}

fn count_lookup(s: &Vec<(String, usize)>, id: &String) -> (r: usize)
    ensures
        r as nat == count_of(count_pairs(s@), id@),
{
    let ghost t0 = count_pairs(s@);
    proof {
        assert forall|i: int| 0 <= i < s@.len() implies #[trigger] s@[i].0@ == t0[i].0 by {}
        lemma_key_index_views(s@, t0, id@);
        lemma_key_index(s@, id@);
    }
    match crate::schema::find_key(s, id.as_str()) {
        Some(j) => s[j].1,
        None => 0,
    }
}

pub open spec fn vb_res(r: Result<ValidatedBlock, BsolError>) -> Result<SVBlock, SError> {
    match r {
        Ok(b) => Ok(view_vblock(b)),
        Err(e) => Err(e@),
    }
}

fn empty_validated_block(block: &BsolBlock, rule_id: String, raw: Option<String>) -> (r: ValidatedBlock)
    ensures
        view_vblock(r) == empty_vblock(block@, rule_id@, opt_text(raw)),
{
    let label = match &block.label {
        Some(q) => Some(q.value.clone()),
        None => None,
    };
    let r = ValidatedBlock {
        span: block.span,
        rule_id,
        kind: block.kind.clone(),
        label,
        attrs: copy_attrs(&block.attrs),
        fields: Vec::new(),
        values: Vec::new(),
        field_spans: Vec::new(),
        extras: Vec::new(),
        nested: Vec::new(),
        lists: Vec::new(),
        raw_body: raw,
    };
    proof {
        assert(text_pairs(r.fields@) =~= Seq::<(Seq<char>, Seq<char>)>::empty());
        assert(view_ventries(r.values@) =~= Seq::<(Seq<char>, SVValue)>::empty());
        assert(span_pairs(r.field_spans@) =~= Seq::<(Seq<char>, BsolSpan)>::empty());
        assert(text_pairs(r.extras@) =~= Seq::<(Seq<char>, Seq<char>)>::empty());
        assert(view_vblocks(r.nested@) =~= Seq::<SVBlock>::empty());
        assert(list_pairs(r.lists@) =~= Seq::<(Seq<char>, Seq<Seq<char>>)>::empty());
    }
    r
}

fn lookup_text(f: &Vec<(String, String)>, k: &str) -> (r: Option<usize>)
    ensures
        match r {
            Some(i) => i < f@.len() && vget(text_pairs(f@), k@) == Some(f@[i as int].1@),
            None => vget(text_pairs(f@), k@) is None,
        },
{
    let ghost t0 = text_pairs(f@);
    proof {
        assert forall|i: int| 0 <= i < f@.len() implies #[trigger] f@[i].0@ == t0[i].0 by {}
        lemma_key_index_views(f@, t0, k@);
        lemma_key_index(f@, k@);
    }
    crate::schema::find_key(f, k)
}

fn has_value(f: &Vec<(String, ValidatedValue)>, k: &str) -> (r: bool)
    ensures
        r == vget(view_ventries(f@), k@) is Some,
{
    let ghost t0 = view_ventries(f@);
    proof {
        crate::validated::lemma_view_ventries(f@);
        assert forall|i: int| 0 <= i < f@.len() implies #[trigger] f@[i].0@ == t0[i].0 by {}
        lemma_key_index_views(f@, t0, k@);
    }
    crate::schema::find_key(f, k).is_some()
}

fn has_list(f: &Vec<(String, Vec<String>)>, k: &str) -> (r: bool)
    ensures
        r == vget(list_pairs(f@), k@) is Some,
{
    let ghost t0 = list_pairs(f@);
    proof {
        assert forall|i: int| 0 <= i < f@.len() implies #[trigger] f@[i].0@ == t0[i].0 by {}
        lemma_key_index_views(f@, t0, k@);
    }
    crate::schema::find_key(f, k).is_some()
}

/// The comma-separated, trimmed parts of a list default.
fn split_default(d: &String) -> (r: Vec<String>)
    ensures
        texts(r@) == default_list(d@),
{
    let cs = chars_of(d.as_str());
    let mut out: Vec<String> = Vec::new();
    let mut start: usize = 0;
    proof {
        assert(cs@.subrange(0, cs@.len() as int) =~= cs@);
        assert(texts(out@) =~= Seq::<Seq<char>>::empty());
    }
    loop
        invariant
            cs@ == d@,
            start <= cs@.len(),
            default_list(d@) == texts(out@) + default_list(cs@.subrange(start as int, cs@.len() as int)),
        decreases cs@.len() - start,
    {
        let ghost rest = cs@.subrange(start as int, cs@.len() as int);
        let mut c = start;
        proof {
            crate::value_type::lemma_first_char(rest, ',', 0);
        }
        while c < cs.len() && cs[c] != ','
            invariant
                start <= c <= cs@.len(),
                rest == cs@.subrange(start as int, cs@.len() as int),
                crate::value_type::first_char(rest, ',', 0) == crate::value_type::first_char(rest, ',', c - start),
            decreases cs.len() - c,
        {
            proof {
                assert(rest[c - start] == cs@[c as int]);
            }
            c = c + 1;
        }
        let (x, y) = crate::value_type::trim_range(&cs, start, c);
        let ghost o0 = out@;
        out.push(sub_text(d.as_str(), x, y));
        if c == cs.len() {
            proof {
                assert(rest.subrange(0, rest.len() as int) =~= rest);
                assert(split_commas(rest) == seq![rest]);
                assert(default_list(rest) =~= seq![crate::value_type::trim(rest)]);
                assert(cs@.subrange(start as int, c as int) == rest);
                assert(texts(out@) =~= texts(o0).push(cs@.subrange(x as int, y as int)));
                assert(texts(out@) =~= texts(o0) + default_list(rest));
            }
            return out;
        }
        proof {
            assert(rest[c - start] == cs@[c as int]);
            let tail = rest.subrange(c - start + 1, rest.len() as int);
            assert(tail =~= cs@.subrange(c + 1, cs@.len() as int));
            assert(rest.subrange(0, c - start) =~= cs@.subrange(start as int, c as int));
            assert(split_commas(rest) == seq![rest.subrange(0, c - start)] + split_commas(tail));
            assert(default_list(rest) =~= seq![crate::value_type::trim(rest.subrange(0, c - start))] + default_list(tail));
            assert(texts(out@) =~= texts(o0).push(cs@.subrange(x as int, y as int)));
            assert(texts(o0) + default_list(rest) =~= texts(out@) + default_list(tail));
        }
        start = c + 1;
    }
}

/// Defaults of the fields that got no value.
fn apply_defaults_exec(rule: &BlockRule, st: &mut BlockState)
    ensures
        final(st).view() == apply_defaults(view_fields(rule.fields@), old(st).view()),
        final(st).nested@ == old(st).nested@,
        final(st).counts@ == old(st).counts@,
{
    let ghost fs = view_fields(rule.fields@);
    let ghost target = apply_defaults(fs, st.view());
    let mut i: usize = 0;
    proof {
        assert(fs.subrange(0, fs.len() as int) =~= fs);
    }
    while i < rule.fields.len()
        invariant
            fs == view_fields(rule.fields@),
            i <= fs.len(),
            target == apply_defaults(fs.subrange(i as int, fs.len() as int), st.view()),
            st.nested@ == old(st).nested@,
            st.counts@ == old(st).counts@,
        decreases rule.fields.len() - i,
    {
        proof {
            let rest = fs.subrange(i as int, fs.len() as int);
            assert(rest[0] == fs[i as int]);
            assert(rest.drop_first() =~= fs.subrange(i + 1, fs.len() as int));
        }
        let name = &rule.fields[i].0;
        let fr = &rule.fields[i].1;
        if !has_value(&st.values, name.as_str()) {
            match &fr.constraints.default_value {
                None => {},
                Some(d) => {
                    upsert_pair(&mut st.fields, name.clone(), d.clone());
                    upsert_vvalue(&mut st.values, name.clone(), ValidatedValue::String(d.clone()));
                    let is_list = match &fr.value_type {
                        ValueType::List => true,
                        ValueType::ListOf(_) => true,
                        _ => false,
                    };
                    if is_list {
                        upsert_list(&mut st.lists, name.clone(), split_default(d));
                    }
                },
            }
        }
        i = i + 1;
    }
    proof {
        assert(fs.subrange(i as int, fs.len() as int) =~= Seq::<(Seq<char>, SField)>::empty());
    }
}

fn cond_list_exec(
    name: &String,
    conds: &Vec<(String, String)>,
    fields: &Vec<(String, String)>,
    span: BsolSpan,
    required: bool,
) -> (r: Result<(), BsolError>)
    ensures
        unit_res(r) == cond_list(name@, text_pairs(conds@), text_pairs(fields@), span, required),
{
    let ghost cs = text_pairs(conds@);
    let ghost fv = text_pairs(fields@);
    let mut i: usize = 0;
    proof {
        assert(cs.subrange(0, cs.len() as int) =~= cs);
    }
    while i < conds.len()
        invariant
            cs == text_pairs(conds@),
            fv == text_pairs(fields@),
            i <= cs.len(),
            cond_list(name@, cs, fv, span, required) == cond_list(name@, cs.subrange(i as int, cs.len() as int), fv, span, required),
        decreases conds.len() - i,
    {
        proof {
            let rest = cs.subrange(i as int, cs.len() as int);
            assert(rest[0] == cs[i as int]);
            assert(rest.drop_first() =~= cs.subrange(i + 1, cs.len() as int));
        }
        let key = &conds[i].0;
        let expected = &conds[i].1;
        let matches_key = match lookup_text(fields, key.as_str()) {
            Some(j) => string_is(&fields[j].1, expected.as_str()),
            None => false,
        };
        let present = lookup_text(fields, name.as_str()).is_some();
        if matches_key && required && !present {
            let m = join2(cat3("field `", name.as_str(), "` required when `"), key.as_str());
            let m = join2(join2(join2(m, "` = `"), expected.as_str()), "`");
            return Err(BsolError::schema_at(span, m));
        }
        if matches_key && !required && present {
            let m = join2(cat3("field `", name.as_str(), "` forbidden when `"), key.as_str());
            let m = join2(join2(join2(m, "` = `"), expected.as_str()), "`");
            return Err(BsolError::schema_at(span, m));
        }
        i = i + 1;
    }
    proof {
        assert(cs.subrange(i as int, cs.len() as int) =~= Seq::<(Seq<char>, Seq<char>)>::empty());
    }
    Ok(())
}

fn conditional_exec(rule: &BlockRule, fields: &Vec<(String, String)>, span: BsolSpan) -> (r: Result<(), BsolError>)
    ensures
        unit_res(r) == conditional(view_fields(rule.fields@), text_pairs(fields@), span),
{
    let ghost fs = view_fields(rule.fields@);
    let mut i: usize = 0;
    proof {
        assert(fs.subrange(0, fs.len() as int) =~= fs);
    }
    while i < rule.fields.len()
        invariant
            fs == view_fields(rule.fields@),
            i <= fs.len(),
            conditional(fs, text_pairs(fields@), span) == conditional(fs.subrange(i as int, fs.len() as int), text_pairs(fields@), span),
        decreases rule.fields.len() - i,
    {
        proof {
            let rest = fs.subrange(i as int, fs.len() as int);
            assert(rest[0] == fs[i as int]);
            assert(rest.drop_first() =~= fs.subrange(i + 1, fs.len() as int));
        }
        let name = &rule.fields[i].0;
        let fr = &rule.fields[i].1;
        match cond_list_exec(name, &fr.constraints.required_if, fields, span, true) {
            Err(e) => {
                return Err(e);
            },
            Ok(()) => {},
        }
        match cond_list_exec(name, &fr.constraints.forbid_if, fields, span, false) {
            Err(e) => {
                return Err(e);
            },
            Ok(()) => {},
        }
        i = i + 1;
    }
    proof {
        assert(fs.subrange(i as int, fs.len() as int) =~= Seq::<(Seq<char>, SField)>::empty());
    }
    Ok(())
}

fn find_variant_exec(vs: &Vec<VariantRule>, name: &String) -> (r: Option<usize>)
    ensures
        match r {
            Some(i) => i < vs@.len() && find_variant(view_variants(vs@), name@) == Some(view_variant(vs@[i as int])),
            None => find_variant(view_variants(vs@), name@) is None,
        },
{
    let ghost v = view_variants(vs@);
    let mut i: usize = 0;
    proof {
        assert(v.subrange(0, v.len() as int) =~= v);
    }
    while i < vs.len()
        invariant
            v == view_variants(vs@),
            i <= v.len(),
            find_variant(v, name@) == find_variant(v.subrange(i as int, v.len() as int), name@),
        decreases vs.len() - i,
    {
        proof {
            let rest = v.subrange(i as int, v.len() as int);
            assert(rest[0] == v[i as int]);
            assert(rest.drop_first() =~= v.subrange(i + 1, v.len() as int));
        }
        if string_is(&vs[i].name, name.as_str()) {
            return Some(i);
        }
        i = i + 1;
    }
    None
}

fn first_key_exec(keys: &Vec<String>, fields: &Vec<(String, String)>, present: bool) -> (r: Option<usize>)
    ensures
        match r {
            Some(i) => i < keys@.len() && first_key(texts(keys@), text_pairs(fields@), present) == Some(keys@[i as int]@),
            None => first_key(texts(keys@), text_pairs(fields@), present) is None,
        },
{
    let ghost ks = texts(keys@);
    let mut i: usize = 0;
    proof {
        assert(ks.subrange(0, ks.len() as int) =~= ks);
    }
    while i < keys.len()
        invariant
            ks == texts(keys@),
            i <= ks.len(),
            first_key(ks, text_pairs(fields@), present) == first_key(ks.subrange(i as int, ks.len() as int), text_pairs(fields@), present),
        decreases keys.len() - i,
    {
        proof {
            let rest = ks.subrange(i as int, ks.len() as int);
            assert(rest[0] == ks[i as int]);
            assert(rest.drop_first() =~= ks.subrange(i + 1, ks.len() as int));
        }
        if lookup_text(fields, keys[i].as_str()).is_some() == present {
            return Some(i);
        }
        i = i + 1;
    }
    None
}

fn variants_exec(vs: &Vec<VariantRule>, fields: &Vec<(String, String)>, span: BsolSpan) -> (r: Result<(), BsolError>)
    ensures
        unit_res(r) == variants_check(view_variants(vs@), text_pairs(fields@), span),
{
    if vs.len() == 0 {
        return Ok(());
    }
    let active = match lookup_text(fields, "source") {
        Some(j) => find_variant_exec(vs, &fields[j].1),
        None => match lookup_text(fields, "kind") {
            Some(j) => find_variant_exec(vs, &fields[j].1),
            None => Some(0),
        },
    };
    match active {
        None => Err(BsolError::schema_at(span, owned("no matching variant for block fields"))),
        Some(k) => {
            let v = &vs[k];
            match first_key_exec(&v.require, fields, false) {
                Some(q) => {
                    let m = join2(cat3("variant `", v.name.as_str(), "` requires field `"), v.require[q].as_str());
                    Err(BsolError::schema_at(span, join2(m, "`")))
                },
                None => match first_key_exec(&v.forbid, fields, true) {
                    Some(q) => {
                        let m = join2(cat3("variant `", v.name.as_str(), "` forbids field `"), v.forbid[q].as_str());
                        Err(BsolError::schema_at(span, join2(m, "`")))
                    },
                    None => Ok(()),
                },
            }
        },
    }
}

fn required_exec(rule: &BlockRule, st: &BlockState, span: BsolSpan) -> (r: Result<(), BsolError>)
    ensures
        unit_res(r) == required_check(view_fields(rule.fields@), st.view(), span),
{
    let ghost fs = view_fields(rule.fields@);
    let mut i: usize = 0;
    proof {
        assert(fs.subrange(0, fs.len() as int) =~= fs);
    }
    while i < rule.fields.len()
        invariant
            fs == view_fields(rule.fields@),
            i <= fs.len(),
            required_check(fs, st.view(), span) == required_check(fs.subrange(i as int, fs.len() as int), st.view(), span),
        decreases rule.fields.len() - i,
    {
        proof {
            let rest = fs.subrange(i as int, fs.len() as int);
            assert(rest[0] == fs[i as int]);
            assert(rest.drop_first() =~= fs.subrange(i + 1, fs.len() as int));
        }
        let name = &rule.fields[i].0;
        let present = lookup_text(&st.fields, name.as_str()).is_some() || has_list(&st.lists, name.as_str())
            || has_value(&st.values, name.as_str());
        if rule.fields[i].1.required && !present {
            return Err(BsolError::schema_at(span, cat3("missing required field `", name.as_str(), "`")));
        }
        i = i + 1;
    }
    proof {
        assert(fs.subrange(i as int, fs.len() as int) =~= Seq::<(Seq<char>, SField)>::empty());
    }
    Ok(())
}

fn nested_cardinality_exec(rule: &BlockRule, counts: &Vec<(String, usize)>, span: BsolSpan) -> (r: Result<(), BsolError>)
    ensures
        unit_res(r) == nested_cardinality(texts(rule.nested_order@), view_rules(rule.nested@), count_pairs(counts@), span),
{
    let ghost os = texts(rule.nested_order@);
    let ghost ns = view_rules(rule.nested@);
    let mut i: usize = 0;
    proof {
        assert(os.subrange(0, os.len() as int) =~= os);
        lemma_view_rules(rule.nested@);
        assert forall|q: int| 0 <= q < rule.nested@.len() implies #[trigger] rule.nested@[q].0@ == ns[q].0 by {}
    }
    while i < rule.nested_order.len()
        invariant
            os == texts(rule.nested_order@),
            ns == view_rules(rule.nested@),
            ns.len() == rule.nested@.len(),
            forall|q: int| 0 <= q < rule.nested@.len() ==> #[trigger] rule.nested@[q].0@ == ns[q].0,
            forall|q: int| 0 <= q < rule.nested@.len() ==> #[trigger] ns[q] == (rule.nested@[q].0@, view_rule(rule.nested@[q].1)),
            i <= os.len(),
            nested_cardinality(os, ns, count_pairs(counts@), span) == nested_cardinality(os.subrange(i as int, os.len() as int), ns, count_pairs(counts@), span),
        decreases rule.nested_order.len() - i,
    {
        proof {
            let rest = os.subrange(i as int, os.len() as int);
            assert(rest[0] == os[i as int]);
            assert(rest.drop_first() =~= os.subrange(i + 1, os.len() as int));
            lemma_key_index_views(rule.nested@, ns, os[i as int]);
            lemma_key_index(rule.nested@, os[i as int]);
        }
        match crate::schema::find_key(&rule.nested, rule.nested_order[i].as_str()) {
            None => {},
            Some(j) => {
                let nr = &rule.nested[j].1;
                let c = count_lookup(counts, &nr.id);
                match nr.cardinality {
                    Cardinality::One => {
                        if c != 1 {
                            let m = join2(cat3("expected exactly one nested `", nr.id.as_str(), "` block, found "), decimal_text(c).as_str());
                            return Err(BsolError::schema_at(span, m));
                        }
                    },
                    Cardinality::ZeroOrOne => {
                        if c > 1 {
                            let m = join2(cat3("expected at most one nested `", nr.id.as_str(), "` block, found "), decimal_text(c).as_str());
                            return Err(BsolError::schema_at(span, m));
                        }
                    },
                    Cardinality::Many => {},
                }
            },
        }
        i = i + 1;
    }
    proof {
        assert(os.subrange(i as int, os.len() as int) =~= Seq::<Seq<char>>::empty());
    }
    Ok(())
}

pub open spec fn block_outcome(r: Result<ValidatedBlock, BsolError>, structural: Result<SVBlock, SError>, exact: bool) -> bool {
    &&& (r is Ok ==> structural == Ok::<SVBlock, SError>(view_vblock(r->Ok_0)))
    &&& (exact ==> vb_res(r) == structural)
}

fn validate_block_logged<V: RuleValidators>(block: &BsolBlock, rule: &BlockRule, reg: Option<&V>) -> (r: (Result<ValidatedBlock, BsolError>, Ghost<CheckLog>))
    ensures
        block_outcome(
            r.0,
            block_spec(block@, view_rule(*rule)),
            unchecked(reg) || refused_or_raw(block@, view_rule(*rule)),
        ),
        r.0 matches Ok(vb) ==> checked(reg, view_vblock(vb)),
        answered_in_turn(r.1@, reg),
        forall|tail: CheckLog| #[trigger] block_checked(block@, view_rule(*rule), reg is Some, r.1@ + tail) == Some((vb_res(r.0), tail)),
    decreases block, 1int,
{
    let ghost b = block@;
    let ghost rv = view_rule(*rule);
    let ghost chk = reg is Some;
    let ghost mut log: CheckLog = Seq::empty();
    proof {
        assert forall|tail: CheckLog| #[trigger] (log + tail) == tail by {
            assert(log + tail =~= tail);
        }
    }
    match validate_block_attrs(&block.attrs, &rule.allowed_attrs) {
        Err(e) => {
            return (Err(e), Ghost(log));
        },
        Ok(()) => {},
    }
    match (&block.schemaless_body, rule.schemaless) {
        (Some(_), false) => {
            let m = join2(cat3("block `", block.kind.as_str(), "` uses `@schemaless` but profile rule `"), rule.id.as_str());
            return (Err(BsolError::schema_at(block.span, join2(m, "` is structured"))), Ghost(log));
        },
        (None, true) => {
            let m = join2(cat3("block `", block.kind.as_str(), "` requires `@schemaless` for profile rule `"), rule.id.as_str());
            return (Err(BsolError::schema_at(block.span, join2(m, "`"))), Ghost(log));
        },
        (Some(raw), true) => {
            return (Ok(empty_validated_block(block, rule.id.clone(), Some(raw.clone()))), Ghost(log));
        },
        (None, false) => {},
    }
    if rule.label == LabelRequirement::Required && block.label.is_none() {
        return (Err(BsolError::schema_at(block.span, cat3("block `", block.kind.as_str(), "` requires a label"))), Ghost(log));
    }
    if rule.label == LabelRequirement::Forbidden && block.label.is_some() {
        return (Err(BsolError::schema_at(block.span, cat3("block `", block.kind.as_str(), "` cannot carry a label"))), Ghost(log));
    }
    let (items_res, Ghost(log)) = validate_items(block, rule, reg);
    match items_res {
        Err(e) => {
            proof {
                assert forall|tail: CheckLog| #[trigger] block_checked(b, rv, chk, log + tail) == Some((vb_res(Err::<ValidatedBlock, BsolError>(e)), tail)) by {
                    assert(items_checked(b, rv, b.items, empty_state(), chk, log + tail) == Some((state_res(items_res), tail)));
                }
            }
            (Err(e), Ghost(log))
        },
        Ok(st) => finish_checked(block, rule, st, reg, Ghost(log)),
    }
}

/// What the items of a block gave: the state, or the error.
pub open spec fn state_res(r: Result<BlockState, BsolError>) -> Result<VState, SError> {
    match r {
        Ok(st) => Ok(st.view()),
        Err(e) => Err(e@),
    }
}

#[verifier::loop_isolation(false)]
#[verifier::rlimit(100)]
fn validate_items<V: RuleValidators>(block: &BsolBlock, rule: &BlockRule, reg: Option<&V>) -> (r: (Result<BlockState, BsolError>, Ghost<CheckLog>))
    requires
        block_head(block@, view_rule(*rule)) is None,
    ensures
        r.0 is Ok ==> block_items(block@, view_rule(*rule), block@.items, empty_state()) == state_res(r.0),
        unchecked(reg) ==> block_items(block@, view_rule(*rule), block@.items, empty_state()) == state_res(r.0),
        answered_in_turn(r.1@, reg),
        forall|tail: CheckLog| #[trigger] items_checked(block@, view_rule(*rule), block@.items, empty_state(), reg is Some, r.1@ + tail)
            == Some((state_res(r.0), tail)),
    decreases block, 0int,
{
    let ghost b = block@;
    let ghost rv = view_rule(*rule);
    let ghost chk = reg is Some;
    let ghost mut log: CheckLog = Seq::empty();
    proof {
        assert forall|tail: CheckLog| #[trigger] (log + tail) == tail by {
            assert(log + tail =~= tail);
        }
    }
    let mut st = BlockState {
        fields: Vec::new(),
        values: Vec::new(),
        field_spans: Vec::new(),
        extras: Vec::new(),
        lists: Vec::new(),
        nested: Vec::new(),
        counts: Vec::new(),
        seen: Vec::new(),
    };
    let ghost vs = view_items(block.items@);
    proof {
        assert(vs.subrange(0, vs.len() as int) =~= vs);
        assert(text_pairs(st.fields@) =~= Seq::<(Seq<char>, Seq<char>)>::empty());
        assert(view_ventries(st.values@) =~= Seq::<(Seq<char>, SVValue)>::empty());
        assert(span_pairs(st.field_spans@) =~= Seq::<(Seq<char>, BsolSpan)>::empty());
        assert(text_pairs(st.extras@) =~= Seq::<(Seq<char>, Seq<char>)>::empty());
        assert(list_pairs(st.lists@) =~= Seq::<(Seq<char>, Seq<Seq<char>>)>::empty());
        assert(view_vblocks(st.nested@) =~= Seq::<SVBlock>::empty());
        assert(count_pairs(st.counts@) =~= Seq::<(Seq<char>, nat)>::empty());
        assert(texts(st.seen@) =~= Seq::<Seq<char>>::empty());
        assert(st.view() == empty_state());
    }
    let mut i: usize = 0;
    while i < block.items.len()
        invariant
            vs == view_items(block.items@),
            vs == b.items,
            b == block@,
            rv == view_rule(*rule),
            i <= vs.len(),
            st.counts_below(i as nat),
            block_items(b, rv, vs, empty_state()) == block_items(b, rv, vs.subrange(i as int, vs.len() as int), st.view()),
            chk == reg is Some,
                        answered_in_turn(log, reg),
            forall|tail: CheckLog| #[trigger] items_checked(b, rv, vs, empty_state(), chk, log + tail)
                == items_checked(b, rv, vs.subrange(i as int, vs.len() as int), st.view(), chk, tail),
        decreases block.items.len() - i,
    {
        let ghost rest = vs.subrange(i as int, vs.len() as int);
        let ghost st0 = st.view();
        proof {
            assert(rest[0] == vs[i as int]);
            assert(rest.subrange(1, rest.len() as int) =~= vs.subrange(i + 1, vs.len() as int));
        }
        match &block.items[i] {
            BsolItem::Assignment(a) => {
                proof {
                    assert(vs[i as int] == SItem::Assignment(a@));
                    crate::coerce::lemma_has_text(st.seen@, a.key@);
                }
                if contains_text(&st.seen, a.key.as_str()) {
                    let m = join2(cat3("duplicate field `", a.key.as_str(), "` on block `"), block.kind.as_str());
                    let e = BsolError::schema_at(a.span, join2(m, "`"));
                    proof {
                        assert forall|tail: CheckLog| #[trigger] items_checked(b, rv, vs, empty_state(), chk, log + tail) == Some((state_res(Err::<BlockState, BsolError>(e)), tail)) by {
                            assert(items_checked(b, rv, vs, empty_state(), chk, log + tail) == items_checked(b, rv, rest, st0, chk, tail));
                        }
                    }
                    return (Err(e), Ghost(log));
                }
                let ghost seen0 = st.seen@;
                st.seen.push(a.key.clone());
                proof {
                    assert(texts(st.seen@) =~= texts(seen0).push(a.key@));
                }
                let ghost st1 = st.view();
                proof {
                    lemma_view_rules(rule.nested@);
                    lemma_key_index_views(rule.fields@, view_fields(rule.fields@), a.key@);
                    lemma_key_index(rule.fields@, a.key@);
                }
                match crate::schema::find_key(&rule.fields, a.key.as_str()) {
                    Some(j) => {
                        let fr = &rule.fields[j].1;
                        proof {
                            assert(vget(rv.fields, a.key@) == Some(view_field(*fr)));
                        }
                        match validate_field_value(a, &fr.value_type, &fr.constraints, &fr.list_values) {
                            Err(e) => {
                                proof {
                                    assert forall|tail: CheckLog| #[trigger] items_checked(b, rv, vs, empty_state(), chk, log + tail) == Some((state_res(Err::<BlockState, BsolError>(e)), tail)) by {
                                        assert(items_checked(b, rv, vs, empty_state(), chk, log + tail) == items_checked(b, rv, rest, st0, chk, tail));
                                    }
                                }
                                return (Err(e), Ghost(log));
                            },
                            Ok(v) => {
                                let ghost vv = v@;
                                upsert_span(&mut st.field_spans, a.key.clone(), a.span);
                                match v.as_list_strings() {
                                    Some(list) => {
                                        upsert_list(&mut st.lists, a.key.clone(), list);
                                    },
                                    None => {},
                                }
                                match v.as_string() {
                                    Some(s) => {
                                        upsert_pair(&mut st.fields, a.key.clone(), s);
                                    },
                                    None => {},
                                }
                                upsert_vvalue(&mut st.values, a.key.clone(), v);
                                proof {
                                    assert(st.view() == record_field(st1, a.key@, a.span, vv));
                                }
                            },
                        }
                    },
                    None => {
                        if rule.allow_extra_fields {
                            let x = extra_field_value(&a.value);
                            upsert_pair(&mut st.extras, a.key.clone(), x);
                        } else {
                            let m = join2(cat3("unknown field `", a.key.as_str(), "` on block `"), block.kind.as_str());
                            let e = BsolError::schema_at(a.span, join2(m, "`"));
                            proof {
                                assert forall|tail: CheckLog| #[trigger] items_checked(b, rv, vs, empty_state(), chk, log + tail) == Some((state_res(Err::<BlockState, BsolError>(e)), tail)) by {
                                    assert(items_checked(b, rv, vs, empty_state(), chk, log + tail) == items_checked(b, rv, rest, st0, chk, tail));
                                }
                            }
                            return (Err(e), Ghost(log));
                        }
                    },
                }
            },
            BsolItem::Block(nb) => {
                proof {
                    assert(vs[i as int] == SItem::Block(nb@));
                    lemma_nested_match_index(rule.nested@, nb.kind@);
                    lemma_nested_rule_for(rule.nested@, nb.kind@);
                }
                match rule.nested_rule_for_kind(nb.kind.as_str()) {
                    Some(nr) => {
                        proof {
                            assert(decreases_to!(block => block.items));
                            assert(decreases_to!(block.items => block.items@));
                            assert(decreases_to!(block.items@ => block.items@[i as int]));
                        }
                        let (sub_res, Ghost(sub)) = validate_block_logged(nb, nr, reg);
                        let ghost log2 = log + sub;
                        proof {
                            assert forall|j: int| 0 <= j < log2.len() implies #[trigger] log2[j] == (if j < log.len() { log[j] } else { sub[j - log.len()] }) by {}
                            match reg {
                                Some(v) => {
                                    assert forall|j: int| 0 <= j < log2.len() implies #[trigger] v.answers(log2[j].0, log2[j].1) by {
                                        if j < log.len() {
                                            assert(log2[j] == log[j]);
                                        } else {
                                            assert(log2[j] == sub[j - log.len()]);
                                        }
                                    }
                                },
                                None => {
                                    assert(log2 =~= log);
                                },
                            }
                        }
                        match sub_res {
                            Err(e) => {
                                proof {
                                    assert forall|tail: CheckLog| #[trigger] items_checked(b, rv, vs, empty_state(), chk, log2 + tail) == Some((state_res(Err::<BlockState, BsolError>(e)), tail)) by {
                                        assert(log2 + tail =~= log + (sub + tail));
                                        assert(items_checked(b, rv, vs, empty_state(), chk, log + (sub + tail)) == items_checked(b, rv, rest, st0, chk, sub + tail));
                                        assert(block_checked(nb@, view_rule(*nr), chk, sub + tail) == Some((vb_res(sub_res), tail)));
                                    }
                                }
                                return (Err(e), Ghost(log2));
                            },
                            Ok(vb) => {
                                let ghost n0 = st.nested@;
                                bump_count(&mut st.counts, &nr.id, i);
                                st.nested.push(vb);
                                proof {
                                    assert(view_vblocks(st.nested@) =~= view_vblocks(n0).push(view_vblock(vb)));
                                    assert forall|tail: CheckLog| #[trigger] items_checked(b, rv, vs, empty_state(), chk, log2 + tail)
                                        == items_checked(b, rv, vs.subrange(i + 1, vs.len() as int), st.view(), chk, tail) by {
                                        assert(log2 + tail =~= log + (sub + tail));
                                        assert(items_checked(b, rv, vs, empty_state(), chk, log + (sub + tail)) == items_checked(b, rv, rest, st0, chk, sub + tail));
                                        assert(block_checked(nb@, view_rule(*nr), chk, sub + tail) == Some((vb_res(sub_res), tail)));
                                    }
                                    log = log2;
                                }
                            },
                        }
                    },
                    None => {
                        if rule.allow_extra_nested {
                            let raw = crate::copy::copy_opt_text(&nb.schemaless_body);
                            let vb = empty_validated_block(nb, nb.kind.clone(), raw);
                            let ghost n0 = st.nested@;
                            st.nested.push(vb);
                            proof {
                                assert(view_vblocks(st.nested@) =~= view_vblocks(n0).push(view_vblock(vb)));
                            }
                        } else {
                            let m = join2(cat3("nested block `", nb.kind.as_str(), "` not allowed inside `"), block.kind.as_str());
                            let e = BsolError::schema_at(nb.span, join2(m, "`"));
                            proof {
                                assert forall|tail: CheckLog| #[trigger] items_checked(b, rv, vs, empty_state(), chk, log + tail) == Some((state_res(Err::<BlockState, BsolError>(e)), tail)) by {
                                    assert(items_checked(b, rv, vs, empty_state(), chk, log + tail) == items_checked(b, rv, rest, st0, chk, tail));
                                }
                            }
                            return (Err(e), Ghost(log));
                        }
                    },
                }
            },
        }
        i = i + 1;
    }
    proof {
        assert(vs.subrange(i as int, vs.len() as int) =~= Seq::<SItem>::empty());
        assert forall|tail: CheckLog| #[trigger] items_checked(b, rv, vs, empty_state(), chk, log + tail) == Some((Ok::<VState, SError>(st.view()), tail)) by {}
    }
    (Ok(st), Ghost(log))
}

fn finish_checked<V: RuleValidators>(
    block: &BsolBlock,
    rule: &BlockRule,
    st: BlockState,
    reg: Option<&V>,
    Ghost(log): Ghost<CheckLog>,
) -> (r: (Result<ValidatedBlock, BsolError>, Ghost<CheckLog>))
    requires
        block_head(block@, view_rule(*rule)) is None,
        block_items(block@, view_rule(*rule), block@.items, empty_state()) == Ok::<VState, SError>(st.view()),
        answered_in_turn(log, reg),
        forall|tail: CheckLog| #[trigger] items_checked(block@, view_rule(*rule), block@.items, empty_state(), reg is Some, log + tail)
            == Some((Ok::<VState, SError>(st.view()), tail)),
    ensures
        block_outcome(
            r.0,
            block_spec(block@, view_rule(*rule)),
            unchecked(reg) || refused_or_raw(block@, view_rule(*rule)),
        ),
        r.0 matches Ok(vb) ==> checked(reg, view_vblock(vb)),
        answered_in_turn(r.1@, reg),
        forall|tail: CheckLog| #[trigger] block_checked(block@, view_rule(*rule), reg is Some, r.1@ + tail) == Some((vb_res(r.0), tail)),
{
    let ghost b = block@;
    let ghost rv = view_rule(*rule);
    let ghost chk = reg is Some;
    let ghost vs = b.items;
    let mut st = st;
    let ghost st_end = st.view();
    apply_defaults_exec(rule, &mut st);
    match conditional_exec(rule, &st.fields, block.span) {
        Err(e) => {
            proof {
                assert forall|tail: CheckLog| #[trigger] block_checked(b, rv, chk, log + tail) == Some((vb_res(Err::<ValidatedBlock, BsolError>(e)), tail)) by {
                    assert(items_checked(b, rv, vs, empty_state(), chk, log + tail) == Some((Ok::<VState, SError>(st_end), tail)));
                }
            }
            return (Err(e), Ghost(log));
        },
        Ok(()) => {
        },
    }
    match variants_exec(&rule.variants, &st.fields, block.span) {
        Err(e) => {
            proof {
                assert forall|tail: CheckLog| #[trigger] block_checked(b, rv, chk, log + tail) == Some((vb_res(Err::<ValidatedBlock, BsolError>(e)), tail)) by {
                    assert(items_checked(b, rv, vs, empty_state(), chk, log + tail) == Some((Ok::<VState, SError>(st_end), tail)));
                }
            }
            return (Err(e), Ghost(log));
        },
        Ok(()) => {
        },
    }
    match required_exec(rule, &st, block.span) {
        Err(e) => {
            proof {
                assert forall|tail: CheckLog| #[trigger] block_checked(b, rv, chk, log + tail) == Some((vb_res(Err::<ValidatedBlock, BsolError>(e)), tail)) by {
                    assert(items_checked(b, rv, vs, empty_state(), chk, log + tail) == Some((Ok::<VState, SError>(st_end), tail)));
                }
            }
            return (Err(e), Ghost(log));
        },
        Ok(()) => {
        },
    }
    match nested_cardinality_exec(rule, &st.counts, block.span) {
        Err(e) => {
            proof {
                assert forall|tail: CheckLog| #[trigger] block_checked(b, rv, chk, log + tail) == Some((vb_res(Err::<ValidatedBlock, BsolError>(e)), tail)) by {
                    assert(items_checked(b, rv, vs, empty_state(), chk, log + tail) == Some((Ok::<VState, SError>(st_end), tail)));
                }
            }
            return (Err(e), Ghost(log));
        },
        Ok(()) => {
        },
    }
    let label = match &block.label {
        Some(q) => Some(q.value.clone()),
        None => None,
    };
    let BlockState { fields, values, field_spans, extras, lists, nested, counts: _, seen: _ } = st;
    let validated = ValidatedBlock {
        span: block.span,
        rule_id: rule.id.clone(),
        kind: block.kind.clone(),
        label,
        attrs: copy_attrs(&block.attrs),
        fields,
        values,
        field_spans,
        extras,
        nested,
        lists,
        raw_body: None,
    };
    match reg {
        Some(v) => {
            let res = v.run(&validated);
            let ghost x = (view_vblock(validated), outcome_of(res));
            let ghost log2 = log.push(x);
            proof {
                assert forall|j: int| 0 <= j < log2.len() implies #[trigger] v.answers(log2[j].0, log2[j].1) by {
                    if j < log.len() {
                        assert(log2[j] == log[j]);
                    }
                }
                assert forall|tail: CheckLog| #[trigger] block_checked(b, rv, chk, log2 + tail) == Some((vb_res(match res {
                    Ok(()) => Ok::<ValidatedBlock, BsolError>(validated),
                    Err(e) => Err(e),
                }), tail)) by {
                    assert(log2 + tail =~= log + (seq![x] + tail));
                    assert(items_checked(b, rv, vs, empty_state(), chk, log + (seq![x] + tail)) == Some((Ok::<VState, SError>(st_end), seq![x] + tail)));
                    assert((seq![x] + tail).subrange(1, (seq![x] + tail).len() as int) =~= tail);
                }
            }
            match res {
                Err(e) => {
                    return (Err(e), Ghost(log2));
                },
                Ok(()) => {
                    return (Ok(validated), Ghost(log2));
                },
            }
        },
        None => {},
    }
    proof {
        assert forall|tail: CheckLog| #[trigger] block_checked(b, rv, chk, log + tail) == Some((vb_res(Ok::<ValidatedBlock, BsolError>(validated)), tail)) by {
            assert(items_checked(b, rv, vs, empty_state(), chk, log + tail) == Some((Ok::<VState, SError>(st_end), tail)));
        }
    }
    (Ok(validated), Ghost(log))
}

/// Validate `block` against `rule`; the validators, when given, run on each structurally valid
/// block that is not `@schemaless`, nested blocks first, each once its own structural checks
/// are through; the first error, structural or from the validators, is the result.
pub fn validate_block<V: RuleValidators>(block: &BsolBlock, rule: &BlockRule, reg: Option<&V>) -> (r: Result<ValidatedBlock, BsolError>)
    ensures
        block_outcome(
            r,
            block_spec(block@, view_rule(*rule)),
            unchecked(reg) || refused_or_raw(block@, view_rule(*rule)),
        ),
        r matches Ok(vb) ==> checked(reg, view_vblock(vb)),
        exists|log: CheckLog|
            answered_in_turn(log, reg) && #[trigger] block_checked(block@, view_rule(*rule), reg is Some, log)
                == Some((vb_res(r), Seq::<(SVBlock, Option<SError>)>::empty())),
{
    let (r, Ghost(log)) = validate_block_logged(block, rule, reg);
    proof {
        assert(log + Seq::<(SVBlock, Option<SError>)>::empty() =~= log);
        assert(block_checked(block@, view_rule(*rule), reg is Some, log + Seq::<(SVBlock, Option<SError>)>::empty())
            == Some((vb_res(r), Seq::<(SVBlock, Option<SError>)>::empty())));
    }
    r
}

/// Position of the first top-level rule, in declaration order, that applies to `kind`.
fn top_rule_for(profile: &SchemaProfile, kind: &str) -> (r: Option<usize>)
    ensures
        match r {
            Some(j) => j < profile.rules@.len() && top_rule_in(view_profile(*profile), texts(profile.top_level_order@), kind@)
                == Some(view_rule(profile.rules@[j as int].1)),
            None => top_rule_in(view_profile(*profile), texts(profile.top_level_order@), kind@) is None,
        },
{
    let ghost p = view_profile(*profile);
    let ghost os = texts(profile.top_level_order@);
    let mut i: usize = 0;
    proof {
        assert(os.subrange(0, os.len() as int) =~= os);
        lemma_view_rules(profile.rules@);
    }
    while i < profile.top_level_order.len()
        invariant
            p == view_profile(*profile),
            os == texts(profile.top_level_order@),
            i <= os.len(),
            p.rules.len() == profile.rules@.len(),
            forall|q: int| 0 <= q < profile.rules@.len() ==> #[trigger] p.rules[q] == (profile.rules@[q].0@, view_rule(profile.rules@[q].1)),
            top_rule_in(p, os, kind@) == top_rule_in(p, os.subrange(i as int, os.len() as int), kind@),
        decreases profile.top_level_order.len() - i,
    {
        proof {
            let rest = os.subrange(i as int, os.len() as int);
            assert(rest[0] == os[i as int]);
            assert(rest.drop_first() =~= os.subrange(i + 1, os.len() as int));
            assert forall|q: int| 0 <= q < profile.rules@.len() implies #[trigger] profile.rules@[q].0@ == p.rules[q].0 by {}
            lemma_key_index_views(profile.rules@, p.rules, os[i as int]);
            lemma_key_index(profile.rules@, os[i as int]);
        }
        match crate::schema::find_key(&profile.rules, profile.top_level_order[i].as_str()) {
            Some(j) => {
                proof {
                    lemma_kind_views(profile.rules@[j as int].1.kind_match, kind@);
                }
                if profile.rules[j].1.matches_kind(kind) {
                    return Some(j);
                }
            },
            None => {},
        }
        i = i + 1;
    }
    None
}

fn doc_cardinality_exec(profile: &SchemaProfile, counts: &Vec<(String, usize)>) -> (r: Result<(), BsolError>)
    ensures
        unit_res(r) == doc_cardinality(view_profile(*profile), texts(profile.top_level_order@), count_pairs(counts@)),
{
    let ghost p = view_profile(*profile);
    let ghost os = texts(profile.top_level_order@);
    let mut i: usize = 0;
    proof {
        assert(os.subrange(0, os.len() as int) =~= os);
        lemma_view_rules(profile.rules@);
    }
    while i < profile.top_level_order.len()
        invariant
            p == view_profile(*profile),
            os == texts(profile.top_level_order@),
            i <= os.len(),
            p.rules.len() == profile.rules@.len(),
            forall|q: int| 0 <= q < profile.rules@.len() ==> #[trigger] p.rules[q] == (profile.rules@[q].0@, view_rule(profile.rules@[q].1)),
            doc_cardinality(p, os, count_pairs(counts@)) == doc_cardinality(p, os.subrange(i as int, os.len() as int), count_pairs(counts@)),
        decreases profile.top_level_order.len() - i,
    {
        proof {
            let rest = os.subrange(i as int, os.len() as int);
            assert(rest[0] == os[i as int]);
            assert(rest.drop_first() =~= os.subrange(i + 1, os.len() as int));
            assert forall|q: int| 0 <= q < profile.rules@.len() implies #[trigger] profile.rules@[q].0@ == p.rules[q].0 by {}
            lemma_key_index_views(profile.rules@, p.rules, os[i as int]);
            lemma_key_index(profile.rules@, os[i as int]);
        }
        match crate::schema::find_key(&profile.rules, profile.top_level_order[i].as_str()) {
            None => {},
            Some(j) => {
                let r = &profile.rules[j].1;
                let c = count_lookup(counts, &r.id);
                match r.cardinality {
                    Cardinality::One => {
                        if c != 1 {
                            let m = join2(cat3("profile `", profile.name.as_str(), "` requires exactly one `"), r.id.as_str());
                            let m = join2(join2(m, "` block, found "), decimal_text(c).as_str());
                            return Err(BsolError::Schema(m));
                        }
                    },
                    Cardinality::ZeroOrOne => {
                        if c > 1 {
                            let m = join2(cat3("profile `", profile.name.as_str(), "` allows at most one `"), r.id.as_str());
                            let m = join2(join2(m, "` block, found "), decimal_text(c).as_str());
                            return Err(BsolError::Schema(m));
                        }
                    },
                    Cardinality::Many => {},
                }
            },
        }
        i = i + 1;
    }
    proof {
        assert(os.subrange(i as int, os.len() as int) =~= Seq::<Seq<char>>::empty());
    }
    Ok(())
}

pub open spec fn vd_res(r: Result<ValidatedDocument, BsolError>) -> Result<SVDoc, SError> {
    match r {
        Ok(d) => Ok(d@),
        Err(e) => Err(e@),
    }
}

pub open spec fn doc_outcome(r: Result<ValidatedDocument, BsolError>, structural: Result<SVDoc, SError>, exact: bool) -> bool {
    &&& (r is Ok ==> structural == Ok::<SVDoc, SError>(r->Ok_0@))
    &&& (exact ==> vd_res(r) == structural)
}

#[verifier::loop_isolation(false)]
fn validate_document<V: RuleValidators>(document: &BsolDocument, profile: &SchemaProfile, reg: Option<&V>) -> (r: (Result<ValidatedDocument, BsolError>, Ghost<CheckLog>))
    ensures
        doc_outcome(r.0, validate_spec(document@, view_profile(*profile)), unchecked(reg) || document.blocks@.len() == 0),
        r.0 matches Ok(d) ==> forall|i: int| 0 <= i < d.blocks@.len() ==> checked(reg, #[trigger] view_vblock(d.blocks@[i])),
        answered_in_turn(r.1@, reg),
        forall|tail: CheckLog| #[trigger] validate_checked(document@, view_profile(*profile), reg is Some, r.1@ + tail)
            == Some((vd_res(r.0), tail)),
{
    let ghost p = view_profile(*profile);
    let ghost bs = view_blocks(document.blocks@);
    let ghost chk = reg is Some;
    let ghost mut log: CheckLog = Seq::empty();
    proof {
        assert forall|tail: CheckLog| #[trigger] (log + tail) == tail by {
            assert(log + tail =~= tail);
        }
    }
    let mut blocks: Vec<ValidatedBlock> = Vec::new();
    let mut counts: Vec<(String, usize)> = Vec::new();
    let mut i: usize = 0;
    proof {
        assert(bs.subrange(0, bs.len() as int) =~= bs);
        assert(view_vblocks(blocks@) =~= Seq::<SVBlock>::empty());
        assert(count_pairs(counts@) =~= Seq::<(Seq<char>, nat)>::empty());
    }
    while i < document.blocks.len()
        invariant
            bs == view_blocks(document.blocks@),
            bs == document@.blocks,
            p == view_profile(*profile),
            i <= bs.len(),
            forall|q: int| 0 <= q < counts@.len() ==> #[trigger] counts@[q].1 <= i,
            forall|j: int| 0 <= j < blocks@.len() ==> checked(reg, #[trigger] view_vblock(blocks@[j])),
            doc_blocks(p, bs, Seq::empty(), Seq::empty()) == doc_blocks(p, bs.subrange(i as int, bs.len() as int), view_vblocks(blocks@), count_pairs(counts@)),
            chk == reg is Some,
            answered_in_turn(log, reg),
            forall|tail: CheckLog| #[trigger] doc_checked(p, bs, Seq::empty(), Seq::empty(), chk, log + tail)
                == doc_checked(p, bs.subrange(i as int, bs.len() as int), view_vblocks(blocks@), count_pairs(counts@), chk, tail),
        decreases document.blocks.len() - i,
    {
        let ghost rest = bs.subrange(i as int, bs.len() as int);
        proof {
            assert(rest[0] == bs[i as int]);
            assert(rest.drop_first() =~= bs.subrange(i + 1, bs.len() as int));
        }
        let block = &document.blocks[i];
        match top_rule_for(profile, block.kind.as_str()) {
            None => {
                let e = BsolError::schema_at(block.span, cat3("unknown top-level block `", block.kind.as_str(), "`"));
                proof {
                    assert forall|tail: CheckLog| #[trigger] validate_checked(document@, p, chk, log + tail) == Some((vd_res(Err::<ValidatedDocument, BsolError>(e)), tail)) by {
                        assert(doc_checked(p, bs, Seq::empty(), Seq::empty(), chk, log + tail) == doc_checked(p, rest, view_vblocks(blocks@), count_pairs(counts@), chk, tail));
                    }
                }
                return (Err(e), Ghost(log));
            },
            Some(j) => {
                let rule = &profile.rules[j].1;
                let ghost st0 = (view_vblocks(blocks@), count_pairs(counts@));
                let (res, Ghost(sub)) = validate_block_logged(block, rule, reg);
                let ghost log2 = log + sub;
                proof {
                    match reg {
                        Some(v) => {
                            assert forall|q: int| 0 <= q < log2.len() implies #[trigger] v.answers(log2[q].0, log2[q].1) by {
                                if q < log.len() {
                                    assert(log2[q] == log[q]);
                                } else {
                                    assert(log2[q] == sub[q - log.len()]);
                                }
                            }
                        },
                        None => {
                            assert(log2 =~= log);
                        },
                    }
                    assert forall|tail: CheckLog| #[trigger] doc_checked(p, bs, Seq::empty(), Seq::empty(), chk, log2 + tail)
                        == (match res {
                            Err(e) => Some((Err(e@), tail)),
                            Ok(vb) => doc_checked(p, bs.subrange(i + 1, bs.len() as int), st0.0.push(view_vblock(vb)), bump(st0.1, rule@.id), chk, tail),
                        }) by {
                        assert(log2 + tail =~= log + (sub + tail));
                        assert(doc_checked(p, bs, Seq::empty(), Seq::empty(), chk, log + (sub + tail)) == doc_checked(p, rest, st0.0, st0.1, chk, sub + tail));
                        assert(block_checked(bs[i as int], view_rule(*rule), chk, sub + tail) == Some((vb_res(res), tail)));
                    }
                }
                match res {
                    Err(e) => {
                        proof {
                            assert forall|tail: CheckLog| #[trigger] validate_checked(document@, p, chk, log2 + tail) == Some((vd_res(Err::<ValidatedDocument, BsolError>(e)), tail)) by {
                                assert(doc_checked(p, bs, Seq::empty(), Seq::empty(), chk, log2 + tail) == Some((Err::<(Seq<SVBlock>, Seq<(Seq<char>, nat)>), SError>(e@), tail)));
                            }
                        }
                        return (Err(e), Ghost(log2));
                    },
                    Ok(vb) => {
                        let ghost b0 = blocks@;
                        bump_count(&mut counts, &rule.id, i);
                        blocks.push(vb);
                        proof {
                            assert(view_vblocks(blocks@) =~= view_vblocks(b0).push(view_vblock(vb)));
                            assert forall|j: int| 0 <= j < blocks@.len() implies checked(reg, #[trigger] view_vblock(blocks@[j])) by {
                                if j < b0.len() {
                                    assert(blocks@[j] == b0[j]);
                                }
                            }
                            log = log2;
                        }
                    },
                }
            },
        }
        i = i + 1;
    }
    proof {
        assert(bs.subrange(i as int, bs.len() as int) =~= Seq::<SBlock>::empty());
    }
    let ghost fin = (view_vblocks(blocks@), count_pairs(counts@));
    let res = match doc_cardinality_exec(profile, &counts) {
        Err(e) => Err(e),
        Ok(()) => Ok(ValidatedDocument { profile: profile.name.clone(), blocks }),
    };
    proof {
        assert forall|tail: CheckLog| #[trigger] validate_checked(document@, p, chk, log + tail) == Some((vd_res(res), tail)) by {
            assert(doc_checked(p, bs, Seq::empty(), Seq::empty(), chk, log + tail) == Some((Ok::<(Seq<SVBlock>, Seq<(Seq<char>, nat)>), SError>(fin), tail)));
        }
    }
    (res, Ghost(log))
}

/// Validate `document` against `profile`.
pub fn validate(document: &BsolDocument, profile: &SchemaProfile) -> (r: Result<ValidatedDocument, BsolError>)
    ensures
        vd_res(r) == validate_spec(document@, view_profile(*profile)),
{
    validate_document::<NoValidators>(document, profile, None).0
}

/// Validate `document` against `profile`, running `registry`'s semantic checks on each
/// structurally valid block, in document order, nested blocks first; the first error,
/// structural or from the checks, is the result, and a success is the structural result.
pub fn validate_with<V: RuleValidators>(document: &BsolDocument, profile: &SchemaProfile, registry: &V) -> (r: Result<ValidatedDocument, BsolError>)
    ensures
        r is Ok ==> validate_spec(document@, view_profile(*profile)) == Ok::<SVDoc, SError>(r->Ok_0@),
        validate_spec(document@, view_profile(*profile)) is Err ==> r is Err,
        document.blocks@.len() == 0 ==> vd_res(r) == validate_spec(document@, view_profile(*profile)),
        accepts_all(registry) ==> vd_res(r) == validate_spec(document@, view_profile(*profile)),
        r matches Ok(d) ==> forall|i: int|
            0 <= i < d.blocks@.len() ==> (#[trigger] d.blocks@[i]).raw_body is Some
                || registry.answers(view_vblock(d.blocks@[i]), None),
        exists|log: CheckLog|
            answered_in_turn(log, Some(registry)) && #[trigger] validate_checked(document@, view_profile(*profile), true, log)
                == Some((vd_res(r), Seq::<(SVBlock, Option<SError>)>::empty())),
{
    let (r, Ghost(log)) = validate_document(document, profile, Some(registry));
    proof {
        assert(log + Seq::<(SVBlock, Option<SError>)>::empty() =~= log);
        assert(validate_checked(document@, view_profile(*profile), true, log + Seq::<(SVBlock, Option<SError>)>::empty())
            == Some((vd_res(r), Seq::<(SVBlock, Option<SError>)>::empty())));
    }
    r
}

} // verus!
