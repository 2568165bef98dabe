//! Profile composition: `extends`, `mixes`, `extend` overlays and merges of imported profiles.

use vstd::prelude::*;

use crate::copy::{copy_field, copy_rule, copy_texts, copy_variants};
use crate::decode::lemma_key_index_views;
use crate::error::{BsolError, SError};
use crate::loader::{upsert_field, upsert_rule};
use crate::profile_spec::{upsert, vget, vkey_index};
use crate::schema::{
    contains_text, find_key, has_text, key_index, lemma_key_index, BlockRule, ExtendSpec,
    FieldRule, SchemaProfile, VariantRule,
};
use crate::schema_view::{
    lemma_view_rules, opt_text, texts, view_extend, view_extends, view_field, view_fields,
    view_imports, view_migrations, view_profile, view_rule, view_rules, view_variant,
    view_variants, SExtend, SField, SProfile, SRule, SVariant,
};
use crate::text::{cat3, owned};

verus! {

broadcast use crate::schema_view::group_schema_views;

// ---------------------------------------------------------------------------
// Merging two rules
// ---------------------------------------------------------------------------

/// Map insertion of every entry of `o`, in order.
pub open spec fn upsert_all<V>(s: Seq<(Seq<char>, V)>, o: Seq<(Seq<char>, V)>) -> Seq<(Seq<char>, V)>
    decreases o.len(),
{
    if o.len() == 0 {
        s
    } else {
        upsert_all(upsert(s, o[0].0, o[0].1), o.drop_first())
    }
}

/// `s` followed by the texts of `o` it does not hold yet, in order.
pub open spec fn append_new(s: Seq<Seq<char>>, o: Seq<Seq<char>>) -> Seq<Seq<char>>
    decreases o.len(),
{
    if o.len() == 0 {
        s
    } else {
        append_new(
            if s.contains(o[0]) {
                s
            } else {
                s.push(o[0])
            },
            o.drop_first(),
        )
    }
}

pub open spec fn has_variant(s: Seq<SVariant>, name: Seq<char>) -> bool {
    exists|i: int| 0 <= i < s.len() && #[trigger] s[i].name == name
}

/// `s` followed by the variants of `o` whose names it does not hold yet.
pub open spec fn append_new_variants(s: Seq<SVariant>, o: Seq<SVariant>) -> Seq<SVariant>
    decreases o.len(),
{
    if o.len() == 0 {
        s
    } else {
        append_new_variants(
            if has_variant(s, o[0].name) {
                s
            } else {
                s.push(o[0])
            },
            o.drop_first(),
        )
    }
}

/// `overlay` laid over `base`: the overlay's identity and matcher, its fields and nested
/// rules replacing the base's of the same key, lists joined without repeats, flags or-ed.
pub open spec fn merge_rules(base: SRule, overlay: SRule) -> SRule {
    SRule {
        id: overlay.id,
        scope: overlay.scope,
        kind_match: overlay.kind_match,
        label: overlay.label,
        cardinality: overlay.cardinality,
        fields: upsert_all(base.fields, overlay.fields),
        nested: upsert_all(base.nested, overlay.nested),
        nested_order: append_new(base.nested_order, overlay.nested_order),
        allow_extra_fields: overlay.allow_extra_fields || base.allow_extra_fields,
        allow_extra_nested: overlay.allow_extra_nested || base.allow_extra_nested,
        schemaless: overlay.schemaless || base.schemaless,
        extends: match overlay.extends {
            Some(e) => Some(e),
            None => base.extends,
        },
        mixes: append_new(base.mixes, overlay.mixes),
        variants: append_new_variants(base.variants, overlay.variants),
        allowed_attrs: append_new(base.allowed_attrs, overlay.allowed_attrs),
    }
}

proof fn lemma_has_text_texts(s: Seq<String>, k: Seq<char>)
    ensures
        has_text(s, k) == texts(s).contains(k),
{
    if has_text(s, k) {
        let i = choose|i: int| 0 <= i < s.len() && #[trigger] s[i]@ == k;
        assert(texts(s)[i] == k);
    }
    if texts(s).contains(k) {
        let i = choose|i: int| 0 <= i < texts(s).len() && texts(s)[i] == k;
        assert(s[i]@ == k);
    }
}

fn upsert_all_fields(dst: &mut Vec<(String, FieldRule)>, src: &Vec<(String, FieldRule)>)
    ensures
        view_fields(final(dst)@) == upsert_all(view_fields(old(dst)@), view_fields(src@)),
{
    let ghost o = view_fields(src@);
    let ghost target = upsert_all(view_fields(dst@), o);
    let mut i: usize = 0;
    proof {
        assert(o.subrange(0, o.len() as int) =~= o);
    }
    while i < src.len()
        invariant
            o == view_fields(src@),
            i <= src@.len(),
            target == upsert_all(view_fields(dst@), o.subrange(i as int, o.len() as int)),
        decreases src.len() - i,
    {
        proof {
            let rest = o.subrange(i as int, o.len() as int);
            assert(rest[0] == o[i as int]);
            assert(rest.drop_first() =~= o.subrange(i + 1, o.len() as int));
        }
        upsert_field(dst, src[i].0.clone(), copy_field(&src[i].1));
        i = i + 1;
    }
    proof {
        assert(o.subrange(i as int, o.len() as int) =~= Seq::<(Seq<char>, SField)>::empty());
    }
}

fn upsert_all_rules(dst: &mut Vec<(String, BlockRule)>, src: &Vec<(String, BlockRule)>)
    ensures
        view_rules(final(dst)@) == upsert_all(view_rules(old(dst)@), view_rules(src@)),
{
    let ghost o = view_rules(src@);
    let ghost target = upsert_all(view_rules(dst@), o);
    let mut i: usize = 0;
    proof {
        assert(o.subrange(0, o.len() as int) =~= o);
    }
    while i < src.len()
        invariant
            o == view_rules(src@),
            i <= src@.len(),
            target == upsert_all(view_rules(dst@), o.subrange(i as int, o.len() as int)),
        decreases src.len() - i,
    {
        proof {
            let rest = o.subrange(i as int, o.len() as int);
            assert(rest[0] == o[i as int]);
            assert(rest.drop_first() =~= o.subrange(i + 1, o.len() as int));
        }
        upsert_rule(dst, src[i].0.clone(), copy_rule(&src[i].1));
        i = i + 1;
    }
    proof {
        assert(o.subrange(i as int, o.len() as int) =~= Seq::<(Seq<char>, SRule)>::empty());
    }
}

fn append_new_texts(dst: &mut Vec<String>, src: &Vec<String>)
    ensures
        texts(final(dst)@) == append_new(texts(old(dst)@), texts(src@)),
{
    let ghost o = texts(src@);
    let ghost target = append_new(texts(dst@), o);
    let mut i: usize = 0;
    proof {
        assert(o.subrange(0, o.len() as int) =~= o);
    }
    while i < src.len()
        invariant
            o == texts(src@),
            i <= src@.len(),
            target == append_new(texts(dst@), o.subrange(i as int, o.len() as int)),
        decreases src.len() - i,
    {
        proof {
            let rest = o.subrange(i as int, o.len() as int);
            assert(rest[0] == o[i as int]);
            assert(rest.drop_first() =~= o.subrange(i + 1, o.len() as int));
            lemma_has_text_texts(dst@, src@[i as int]@);
        }
        if !contains_text(dst, src[i].as_str()) {
            let ghost d0 = dst@;
            dst.push(src[i].clone());
            proof {
                assert(texts(dst@) =~= texts(d0).push(src@[i as int]@));
            }
        }
        i = i + 1;
    }
    proof {
        assert(o.subrange(i as int, o.len() as int) =~= Seq::<Seq<char>>::empty());
    }
}

fn contains_variant(s: &Vec<VariantRule>, name: &String) -> (r: bool)
    ensures
        r == has_variant(view_variants(s@), name@),
{
    let mut i: usize = 0;
    while i < s.len()
        invariant
            i <= s@.len(),
            forall|j: int| 0 <= j < i ==> s@[j].name@ != name@,
        decreases s.len() - i,
    {
        if crate::text::string_is(&s[i].name, name.as_str()) {
            proof {
                assert(view_variants(s@)[i as int].name == name@);
            }
            return true;
        }
        i = i + 1;
    }
    proof {
        if has_variant(view_variants(s@), name@) {
            let j = choose|j: int| 0 <= j < view_variants(s@).len() && #[trigger] view_variants(s@)[j].name == name@;
            assert(view_variants(s@)[j].name == s@[j].name@);
        }
    }
    false
}

fn append_new_variants_into(dst: &mut Vec<VariantRule>, src: &Vec<VariantRule>)
    ensures
        view_variants(final(dst)@) == append_new_variants(view_variants(old(dst)@), view_variants(src@)),
{
    let ghost o = view_variants(src@);
    let ghost target = append_new_variants(view_variants(dst@), o);
    let mut i: usize = 0;
    proof {
        assert(o.subrange(0, o.len() as int) =~= o);
    }
    while i < src.len()
        invariant
            o == view_variants(src@),
            i <= src@.len(),
            target == append_new_variants(view_variants(dst@), o.subrange(i as int, o.len() as int)),
        decreases src.len() - i,
    {
        proof {
            let rest = o.subrange(i as int, o.len() as int);
            assert(rest[0] == o[i as int]);
            assert(rest.drop_first() =~= o.subrange(i + 1, o.len() as int));
        }
        if !contains_variant(dst, &src[i].name) {
            let ghost d0 = dst@;
            let v = VariantRule {
                name: src[i].name.clone(),
                require: copy_texts(&src[i].require),
                forbid: copy_texts(&src[i].forbid),
            };
            dst.push(v);
            proof {
                assert(view_variants(dst@) =~= view_variants(d0).push(o[i as int]));
            }
        }
        i = i + 1;
    }
    proof {
        assert(o.subrange(i as int, o.len() as int) =~= Seq::<SVariant>::empty());
    }
}

/// `overlay` laid over `base`.
pub fn merge_block_rules(base: &BlockRule, overlay: &BlockRule) -> (r: BlockRule)
    ensures
        view_rule(r) == merge_rules(view_rule(*base), view_rule(*overlay)),
{
    let mut fields = crate::copy::copy_fields(&base.fields);
    upsert_all_fields(&mut fields, &overlay.fields);
    let mut nested = crate::copy::copy_rules(&base.nested);
    upsert_all_rules(&mut nested, &overlay.nested);
    let mut nested_order = copy_texts(&base.nested_order);
    append_new_texts(&mut nested_order, &overlay.nested_order);
    let mut variants = copy_variants(&base.variants);
    append_new_variants_into(&mut variants, &overlay.variants);
    let mut mixes = copy_texts(&base.mixes);
    append_new_texts(&mut mixes, &overlay.mixes);
    let mut allowed_attrs = copy_texts(&base.allowed_attrs);
    append_new_texts(&mut allowed_attrs, &overlay.allowed_attrs);
    let extends = match &overlay.extends {
        Some(e) => Some(e.clone()),
        None => crate::copy::copy_opt_text(&base.extends),
    };
    BlockRule {
        id: overlay.id.clone(),
        scope: overlay.scope,
        kind_match: crate::copy::copy_kind(&overlay.kind_match),
        label: overlay.label,
        cardinality: overlay.cardinality,
        fields,
        nested,
        nested_order,
        allow_extra_fields: overlay.allow_extra_fields || base.allow_extra_fields,
        allow_extra_nested: overlay.allow_extra_nested || base.allow_extra_nested,
        schemaless: overlay.schemaless || base.schemaless,
        extends,
        mixes,
        variants,
        allowed_attrs,
    }
}

// ---------------------------------------------------------------------------
// The `extends` graph
// ---------------------------------------------------------------------------

/// Index of the first rule that extends a rule id that is not in `rules`, or -1.
pub open spec fn first_unknown_base(rules: Seq<(Seq<char>, SRule)>, i: int) -> int
    decreases rules.len() - i,
{
    if i < 0 || i >= rules.len() {
        -1
    } else {
        match rules[i].1.extends {
            Some(b) => if vkey_index(rules, b) < 0 {
                i
            } else {
                first_unknown_base(rules, i + 1)
            },
            None => first_unknown_base(rules, i + 1),
        }
    }
}

/// Following `extends` from rule `id` reaches a rule without `extends` within `n` rules.
pub open spec fn chain_ends(rules: Seq<(Seq<char>, SRule)>, id: Seq<char>, n: nat) -> bool
    decreases n,
{
    if n == 0 {
        false
    } else {
        match vget(rules, id) {
            None => false,
            Some(r) => match r.extends {
                None => true,
                Some(b) => chain_ends(rules, b, (n - 1) as nat),
            },
        }
    }
}

/// No rule is its own ancestor: every `extends` chain ends.
pub open spec fn extends_acyclic(rules: Seq<(Seq<char>, SRule)>) -> bool {
    forall|i: int| 0 <= i < rules.len() ==> chain_ends(rules, #[trigger] rules[i].0, rules.len())
}

/// The check of the `extends` graph: every base exists and no chain is cyclic.
pub open spec fn extends_dag(rules: Seq<(Seq<char>, SRule)>) -> Result<(), SError> {
    let u = first_unknown_base(rules, 0);
    if u >= 0 {
        Err(
            SError::Schema(
                "rule `"@ + rules[u].0 + "` extends unknown `"@ + rules[u].1.extends.unwrap()
                    + "`"@,
            ),
        )
    } else if extends_acyclic(rules) {
        Ok(())
    } else {
        Err(SError::Schema("cyclic rule extends detected"@))
    }
}

pub open spec fn unit_res(r: Result<(), BsolError>) -> Result<(), SError> {
    match r {
        Ok(()) => Ok(()),
        Err(e) => Err(e@),
    }
}

proof fn lemma_first_unknown(rules: Seq<(Seq<char>, SRule)>, i: int)
    requires
        0 <= i,
    ensures
        first_unknown_base(rules, i) == -1 || i <= first_unknown_base(rules, i) < rules.len(),
        first_unknown_base(rules, i) >= 0 ==> (rules[first_unknown_base(rules, i)].1.extends matches Some(b)
            && vkey_index(rules, b) < 0),
    decreases rules.len() - i,
{
    if i < rules.len() {
        lemma_first_unknown(rules, i + 1);
    }
}

proof fn lemma_first_unknown_none(rules: Seq<(Seq<char>, SRule)>, i: int, j: int)
    requires
        0 <= i <= j < rules.len(),
        first_unknown_base(rules, i) == -1,
    ensures
        rules[j].1.extends matches Some(b) ==> vkey_index(rules, b) >= 0,
    decreases j - i,
{
    if i < j {
        match rules[i].1.extends {
            Some(b) => {
                if vkey_index(rules, b) >= 0 {
                    lemma_first_unknown_none(rules, i + 1, j);
                }
            },
            None => {
                lemma_first_unknown_none(rules, i + 1, j);
            },
        }
    }
}

/// Position of the rule keyed `k`, with the model's index.
fn find_rule(rules: &Vec<(String, BlockRule)>, k: &str) -> (r: Option<usize>)
    ensures
        match r {
            Some(i) => i == vkey_index(view_rules(rules@), k@) && i < rules@.len(),
            None => vkey_index(view_rules(rules@), k@) == -1,
        },
{
    proof {
        lemma_view_rules(rules@);
        assert forall|i: int| 0 <= i < rules@.len() implies #[trigger] rules@[i].0@ == view_rules(rules@)[i].0 by {}
        lemma_key_index_views(rules@, view_rules(rules@), k@);
        lemma_key_index(rules@, k@);
    }
    find_key(rules, k)
}

/// Check the `extends` graph of `rules`: every base must exist and no rule may be its own
/// ancestor.
pub fn validate_extends_dag(rules: &Vec<(String, BlockRule)>) -> (r: Result<(), BsolError>)
    ensures
        unit_res(r) == extends_dag(view_rules(rules@)),
{
    let ghost vr = view_rules(rules@);
    let n = rules.len();
    proof {
        lemma_view_rules(rules@);
    }
    let mut i: usize = 0;
    while i < n
        invariant
            vr == view_rules(rules@),
            vr.len() == n,
            n == rules@.len(),
            i <= n,
            first_unknown_base(vr, 0) == first_unknown_base(vr, i as int),
        decreases n - i,
    {
        proof {
            assert(vr[i as int] == (rules@[i as int].0@, view_rule(rules@[i as int].1)));
        }
        match &rules[i].1.extends {
            Some(b) => {
                match find_rule(rules, b.as_str()) {
                    None => {
                        let m = cat3("rule `", rules[i].0.as_str(), "` extends unknown `");
                        let m = crate::text::join2(m, b.as_str());
                        let m = crate::text::join2(m, "`");
                        return Err(BsolError::Schema(m));
                    },
                    Some(_) => {},
                }
            },
            None => {},
        }
        i = i + 1;
    }
    proof {
        lemma_first_unknown(vr, 0);
    }
    let mut k: usize = 0;
    while k < n
        invariant
            vr == view_rules(rules@),
            vr.len() == n,
            n == rules@.len(),
            k <= n,
            first_unknown_base(vr, 0) == -1,
            forall|j: int| 0 <= j < k ==> chain_ends(vr, #[trigger] vr[j].0, n as nat),
        decreases n - k,
    {
        let ghost id0 = vr[k as int].0;
        proof {
            assert(vr[k as int] == (rules@[k as int].0@, view_rule(rules@[k as int].1)));
            crate::profile_spec::lemma_vkey_index_at(vr, id0, k as int);
        }
        let mut cur: usize = match find_rule(rules, rules[k].0.as_str()) {
            Some(c) => c,
            None => {
                return Err(BsolError::Schema(owned("cyclic rule extends detected")));
            },
        };
        let ghost mut cid = id0;
        let mut steps: usize = 0;
        proof {
            crate::profile_spec::lemma_vkey_index(vr, id0);
        }
        loop
            invariant
                vr == view_rules(rules@),
                vr.len() == n,
                n == rules@.len(),
                k < n,
                cur < n,
                steps <= n,
                first_unknown_base(vr, 0) == -1,
                id0 == vr[k as int].0,
                cur == vkey_index(vr, cid),
                vr[cur as int].0 == cid,
                chain_ends(vr, id0, n as nat) == chain_ends(vr, cid, (n - steps) as nat),
            ensures
                chain_ends(vr, id0, n as nat),
            decreases n - steps,
        {
            if steps == n {
                proof {
                    assert(!chain_ends(vr, vr[k as int].0, n as nat));
                    assert(!extends_acyclic(vr));
                }
                return Err(BsolError::Schema(owned("cyclic rule extends detected")));
            }
            proof {
                assert(vr[cur as int] == (rules@[cur as int].0@, view_rule(rules@[cur as int].1)));
                assert(vget(vr, cid) == Some(vr[cur as int].1));
            }
            match &rules[cur].1.extends {
                None => {
                    break;
                },
                Some(b) => {
                    proof {
                        lemma_first_unknown_none(vr, 0, cur as int);
                    }
                    match find_rule(rules, b.as_str()) {
                        None => {
                            return Err(BsolError::Schema(owned("cyclic rule extends detected")));
                        },
                        Some(j) => {
                            proof {
                                crate::profile_spec::lemma_vkey_index(vr, b@);
                                cid = b@;
                            }
                            cur = j;
                            steps = steps + 1;
                        },
                    }
                },
            }
        }
        k = k + 1;
    }
    Ok(())
}

// ---------------------------------------------------------------------------
// Resolving `extends` and `mixes`
// ---------------------------------------------------------------------------

/// How deeply rule resolution may nest; a chain of rules this deep is refused.
pub const COMPOSE_DEPTH: u32 = 4294967295;

pub open spec fn compose_depth_err() -> SError {
    SError::Schema("rule composition nests too deeply"@)
}

/// The error of a rule whose composition leads back to itself.
pub open spec fn rule_cycle_err(id: Seq<char>) -> SError {
    SError::Schema("cyclic rule composition through `"@ + id + "`"@)
}

pub open spec fn unknown_base(b: Seq<char>) -> SError {
    SError::Schema("unknown base rule `"@ + b + "`"@)
}

pub open spec fn unknown_mix(m: Seq<char>) -> SError {
    SError::Schema("unknown mix rule `"@ + m + "`"@)
}

/// Resolution state: the outcome and the table of rules resolved so far.
pub type Resolution = (Result<SRule, SError>, Seq<(Seq<char>, SRule)>);

/// Make sure `id` (whose rule is `r` in `all`) is in the resolved table; `anc` holds the ids
/// whose resolution is under way, and meeting one of them again is a cycle.
pub open spec fn ensure_resolved(
    id: Seq<char>,
    r: SRule,
    all: Seq<(Seq<char>, SRule)>,
    resolved: Seq<(Seq<char>, SRule)>,
    d: nat,
    anc: Seq<Seq<char>>,
) -> (Result<(), SError>, Seq<(Seq<char>, SRule)>)
    decreases d, 1nat, 0nat,
{
    if vget(resolved, id) is Some {
        (Ok(()), resolved)
    } else if anc.contains(id) {
        (Err(rule_cycle_err(id)), resolved)
    } else {
        let (c, rs) = resolve_spec(r, all, resolved, d, anc.push(id));
        match c {
            Err(e) => (Err(e), rs),
            Ok(x) => (Ok(()), upsert(rs, id, x)),
        }
    }
}

/// Resolve `rule` against the other rules `all`: lay it over its resolved base, then over each
/// resolved mix, then resolve its nested rules; the table of resolved rules is kept by id.
pub open spec fn resolve_spec(
    rule: SRule,
    all: Seq<(Seq<char>, SRule)>,
    resolved: Seq<(Seq<char>, SRule)>,
    depth: nat,
    anc: Seq<Seq<char>>,
) -> Resolution
    decreases depth, 0nat, 0nat,
{
    if depth == 0 {
        (Err(compose_depth_err()), resolved)
    } else {
        match vget(resolved, rule.id) {
            Some(r) => (Ok(r), resolved),
            None => {
                let d = (depth - 1) as nat;
                let (r1, res1) = match rule.extends {
                    None => (Ok(rule), resolved),
                    Some(b) => match vget(all, b) {
                        None => (Err(unknown_base(b)), resolved),
                        Some(base) => {
                            let (ok, rs) = ensure_resolved(b, base, all, resolved, d, anc);
                            match ok {
                                Err(e) => (Err(e), rs),
                                Ok(_) => match vget(rs, b) {
                                    None => (Err(unknown_base(b)), rs),
                                    Some(bb) => (Ok(merge_rules(bb, rule)), rs),
                                },
                            }
                        },
                    },
                };
                match r1 {
                    Err(e) => (Err(e), res1),
                    Ok(r1) => {
                        let (r2, res2) = resolve_mixes(r1, r1.mixes, all, res1, d, anc);
                        match r2 {
                            Err(e) => (Err(e), res2),
                            Ok(r2) => {
                                let (nr, res3) = resolve_nested(r2.nested, all, res2, d, Seq::empty(), anc);
                                match nr {
                                    Err(e) => (Err(e), res3),
                                    Ok(ns) => {
                                        let r3 = SRule { nested: ns, ..r2 };
                                        (Ok(r3), upsert(res3, r3.id, r3))
                                    },
                                }
                            },
                        }
                    },
                }
            },
        }
    }
}

/// Lay `rule` over each resolved mix of `mixes` in turn.
pub open spec fn resolve_mixes(
    rule: SRule,
    mixes: Seq<Seq<char>>,
    all: Seq<(Seq<char>, SRule)>,
    resolved: Seq<(Seq<char>, SRule)>,
    d: nat,
    anc: Seq<Seq<char>>,
) -> Resolution
    decreases d, 2nat, mixes.len(),
{
    if mixes.len() == 0 {
        (Ok(rule), resolved)
    } else {
        let m = mixes[0];
        match vget(all, m) {
            None => (Err(unknown_mix(m)), resolved),
            Some(mix) => {
                let (ok, rs) = ensure_resolved(m, mix, all, resolved, d, anc);
                match ok {
                    Err(e) => (Err(e), rs),
                    Ok(_) => match vget(rs, m) {
                        None => (Err(unknown_mix(m)), rs),
                        Some(mm) => resolve_mixes(merge_rules(mm, rule), mixes.drop_first(), all, rs, d, anc),
                    },
                }
            },
        }
    }
}

/// Resolve each nested rule, collected by id into `acc`.
pub open spec fn resolve_nested(
    entries: Seq<(Seq<char>, SRule)>,
    all: Seq<(Seq<char>, SRule)>,
    resolved: Seq<(Seq<char>, SRule)>,
    d: nat,
    acc: Seq<(Seq<char>, SRule)>,
    anc: Seq<Seq<char>>,
) -> (Result<Seq<(Seq<char>, SRule)>, SError>, Seq<(Seq<char>, SRule)>)
    decreases d, 2nat, entries.len(),
{
    if entries.len() == 0 {
        (Ok(acc), resolved)
    } else {
        let (r, rs) = resolve_spec(entries[0].1, all, resolved, d, anc);
        match r {
            Err(e) => (Err(e), rs),
            Ok(x) => resolve_nested(entries.drop_first(), all, rs, d, upsert(acc, entries[0].0, x), anc),
        }
    }
}

pub open spec fn resolution_matches(
    r: Result<BlockRule, BsolError>,
    table: Seq<(String, BlockRule)>,
    s: Resolution,
) -> bool {
    match s.0 {
        Ok(v) => r is Ok && view_rule(r->Ok_0) == v && view_rules(table) == s.1,
        Err(e) => r is Err && r->Err_0@ == e,
    }
}

fn ensure_resolved_exec(
    id: &String,
    bi: usize,
    all: &Vec<(String, BlockRule)>,
    resolved: &mut Vec<(String, BlockRule)>,
    d: u32,
    anc: &mut Vec<String>,
) -> (r: Result<(), BsolError>)
    requires
        bi < all@.len(),
    ensures
        final(anc)@ == old(anc)@,
        match ensure_resolved(id@, view_rule(all@[bi as int].1), view_rules(all@), view_rules(old(resolved)@), d as nat, texts(old(anc)@)).0 {
            Ok(_) => r is Ok && view_rules(final(resolved)@) == ensure_resolved(
                id@,
                view_rule(all@[bi as int].1),
                view_rules(all@),
                view_rules(old(resolved)@),
                d as nat,
                texts(old(anc)@),
            ).1,
            Err(e) => r is Err && r->Err_0@ == e,
        },
    decreases d, 1nat,
{
    match find_rule(resolved, id.as_str()) {
        Some(_) => {
            proof {
                assert(vget(view_rules(resolved@), id@) is Some);
            }
            Ok(())
        },
        None => {
            proof {
                crate::schema::lemma_has_texts(anc@, id@);
            }
            if crate::schema::contains_text(anc, id.as_str()) {
                return Err(BsolError::Schema(cat3("cyclic rule composition through `", id.as_str(), "`")));
            }
            let ghost a0 = anc@;
            anc.push(id.clone());
            proof {
                assert(texts(anc@) =~= texts(a0).push(id@));
            }
            let c = resolve_rule(copy_rule(&all[bi].1), all, resolved, d, anc);
            let _ = anc.pop();
            proof {
                assert(anc@ =~= a0);
            }
            match c {
                Err(e) => Err(e),
                Ok(x) => {
                    upsert_rule(resolved, id.clone(), x);
                    Ok(())
                },
            }
        },
    }
}

/// Resolve `rule` against the other rules `all`, recording resolved rules in `resolved`.
#[verifier::loop_isolation(false)]
#[verifier::rlimit(60)]
fn resolve_rule(
    rule: BlockRule,
    all: &Vec<(String, BlockRule)>,
    resolved: &mut Vec<(String, BlockRule)>,
    depth: u32,
    anc: &mut Vec<String>,
) -> (r: Result<BlockRule, BsolError>)
    ensures
        final(anc)@ == old(anc)@,
        resolution_matches(
            r,
            final(resolved)@,
            resolve_spec(view_rule(rule), view_rules(all@), view_rules(old(resolved)@), depth as nat, texts(old(anc)@)),
        ),
    decreases depth, 0nat,
{
    let ghost a0 = anc@;
    let ghost av = texts(anc@);
    proof {
        lemma_view_rules(all@);
    }
    if depth == 0 {
        return Err(BsolError::Schema(owned("rule composition nests too deeply")));
    }
    match find_rule(resolved, rule.id.as_str()) {
        Some(j) => {
            proof {
                lemma_view_rules(resolved@);
            }
            return Ok(copy_rule(&resolved[j].1));
        },
        None => {},
    }
    let d = depth - 1;
    let ghost r0 = view_rule(rule);
    let ghost all_v = view_rules(all@);
    let mut rule = rule;
    let ext = crate::copy::copy_opt_text(&rule.extends);
    match ext {
        None => {},
        Some(b) => {
            match find_rule(all, b.as_str()) {
                None => {
                    return Err(BsolError::Schema(cat3("unknown base rule `", b.as_str(), "`")));
                },
                Some(bi) => {
                    proof {
                        assert(vget(all_v, b@) == Some(view_rule(all@[bi as int].1)));
                    }
                    match ensure_resolved_exec(&b, bi, all, resolved, d, anc) {
                        Err(e) => {
                            return Err(e);
                        },
                        Ok(()) => {},
                    }
                    match find_rule(resolved, b.as_str()) {
                        None => {
                            return Err(BsolError::Schema(cat3("unknown base rule `", b.as_str(), "`")));
                        },
                        Some(j) => {
                            proof {
                                lemma_view_rules(resolved@);
                            }
                            rule = merge_block_rules(&resolved[j].1, &rule);
                        },
                    }
                },
            }
        },
    }
    let ghost r1 = view_rule(rule);
    let ghost res1 = view_rules(resolved@);
    let mixes = copy_texts(&rule.mixes);
    let ghost ms = texts(mixes@);
    let mut i: usize = 0;
    proof {
        assert(ms.subrange(0, ms.len() as int) =~= ms);
    }
    while i < mixes.len()
        invariant
            ms == texts(mixes@),
            i <= ms.len(),
            all_v == view_rules(all@),
            anc@ == a0,
            av == texts(a0),
            resolve_mixes(r1, ms, all_v, res1, d as nat, av) == resolve_mixes(
                view_rule(rule),
                ms.subrange(i as int, ms.len() as int),
                all_v,
                view_rules(resolved@),
                d as nat,
                av,
            ),
        decreases mixes.len() - i,
    {
        let ghost rest = ms.subrange(i as int, ms.len() as int);
        proof {
            assert(rest[0] == ms[i as int]);
            assert(rest.drop_first() =~= ms.subrange(i + 1, ms.len() as int));
        }
        let m = &mixes[i];
        match find_rule(all, m.as_str()) {
            None => {
                return Err(BsolError::Schema(cat3("unknown mix rule `", m.as_str(), "`")));
            },
            Some(mi) => {
                proof {
                    assert(vget(all_v, m@) == Some(view_rule(all@[mi as int].1)));
                }
                match ensure_resolved_exec(m, mi, all, resolved, d, anc) {
                    Err(e) => {
                        return Err(e);
                    },
                    Ok(()) => {},
                }
                match find_rule(resolved, m.as_str()) {
                    None => {
                        return Err(BsolError::Schema(cat3("unknown mix rule `", m.as_str(), "`")));
                    },
                    Some(j) => {
                        proof {
                            lemma_view_rules(resolved@);
                        }
                        rule = merge_block_rules(&resolved[j].1, &rule);
                    },
                }
            },
        }
        i = i + 1;
    }
    proof {
        assert(ms.subrange(i as int, ms.len() as int) =~= Seq::<Seq<char>>::empty());
    }
    let ghost r2 = view_rule(rule);
    let ghost res2 = view_rules(resolved@);
    let ghost es = view_rules(rule.nested@);
    let mut ns: Vec<(String, BlockRule)> = Vec::new();
    let mut k: usize = 0;
    proof {
        assert(es.subrange(0, es.len() as int) =~= es);
        assert(view_rules(ns@) =~= Seq::<(Seq<char>, SRule)>::empty());
        lemma_view_rules(rule.nested@);
    }
    while k < rule.nested.len()
        invariant
            es == view_rules(rule.nested@),
            view_rule(rule) == r2,
            k <= es.len(),
            all_v == view_rules(all@),
            anc@ == a0,
            av == texts(a0),
            resolve_nested(es, all_v, res2, d as nat, Seq::empty(), av) == resolve_nested(
                es.subrange(k as int, es.len() as int),
                all_v,
                view_rules(resolved@),
                d as nat,
                view_rules(ns@),
                av,
            ),
        decreases rule.nested.len() - k,
    {
        let ghost rest = es.subrange(k as int, es.len() as int);
        proof {
            lemma_view_rules(rule.nested@);
            assert(rest[0] == es[k as int]);
            assert(rest.drop_first() =~= es.subrange(k + 1, es.len() as int));
        }
        let x = match resolve_rule(copy_rule(&rule.nested[k].1), all, resolved, d, anc) {
            Err(e) => {
                return Err(e);
            },
            Ok(x) => x,
        };
        upsert_rule(&mut ns, rule.nested[k].0.clone(), x);
        k = k + 1;
    }
    proof {
        assert(es.subrange(k as int, es.len() as int) =~= Seq::<(Seq<char>, SRule)>::empty());
    }
    rule.nested = ns;
    upsert_rule(resolved, rule.id.clone(), copy_rule(&rule));
    Ok(rule)
}

// ---------------------------------------------------------------------------
// Profiles
// ---------------------------------------------------------------------------

/// Resolve rules `i..` of `rules` in turn, each against all the others.
pub open spec fn compose_rules(
    rules: Seq<(Seq<char>, SRule)>,
    i: int,
    resolved: Seq<(Seq<char>, SRule)>,
) -> Result<Seq<(Seq<char>, SRule)>, SError>
    decreases rules.len() - i,
{
    if i < 0 || i >= rules.len() {
        Ok(rules)
    } else {
        let (c, res) = resolve_spec(rules[i].1, rules.remove(i), resolved, COMPOSE_DEPTH as nat, Seq::empty());
        match c {
            Err(e) => Err(e),
            Ok(x) => compose_rules(rules.update(i, (rules[i].0, x)), i + 1, res),
        }
    }
}

/// The profile with `extends` and `mixes` resolved in every rule.
pub open spec fn compose_spec(p: SProfile) -> Result<SProfile, SError> {
    match extends_dag(p.rules) {
        Err(e) => Err(e),
        Ok(_) => match compose_rules(p.rules, 0, Seq::empty()) {
            Err(e) => Err(e),
            Ok(rs) => Ok(SProfile { rules: rs, ..p }),
        },
    }
}

pub open spec fn profile_res(r: Result<SchemaProfile, BsolError>) -> Result<SProfile, SError> {
    match r {
        Ok(p) => Ok(view_profile(p)),
        Err(e) => Err(e@),
    }
}

proof fn lemma_view_rules_reinsert(s: Seq<(String, BlockRule)>, i: int, e: (String, BlockRule))
    requires
        0 <= i < s.len(),
    ensures
        view_rules(s.remove(i)) == view_rules(s).remove(i),
        view_rules(s.remove(i).insert(i, e)) == view_rules(s).update(i, (e.0@, view_rule(e.1))),
{
    lemma_view_rules(s);
    lemma_view_rules(s.remove(i));
    lemma_view_rules(s.remove(i).insert(i, e));
    assert(view_rules(s.remove(i)) =~= view_rules(s).remove(i));
    assert(view_rules(s.remove(i).insert(i, e)) =~= view_rules(s).update(i, (e.0@, view_rule(e.1))));
}

/// Resolve `extends` and `mixes` within a single profile.
#[verifier::loop_isolation(false)]
pub fn compose_profile(profile: SchemaProfile) -> (r: Result<SchemaProfile, BsolError>)
    ensures
        profile_res(r) == compose_spec(view_profile(profile)),
{
    let ghost p0 = view_profile(profile);
    match validate_extends_dag(&profile.rules) {
        Err(e) => {
            return Err(e);
        },
        Ok(()) => {},
    }
    let mut profile = profile;
    let mut resolved: Vec<(String, BlockRule)> = Vec::new();
    let mut i: usize = 0;
    proof {
        assert(view_rules(resolved@) =~= Seq::<(Seq<char>, SRule)>::empty());
    }
    while i < profile.rules.len()
        invariant
            i <= profile.rules@.len(),
            compose_rules(p0.rules, 0, Seq::empty()) == compose_rules(
                view_rules(profile.rules@),
                i as int,
                view_rules(resolved@),
            ),
            view_profile(profile) == (SProfile { rules: view_rules(profile.rules@), ..p0 }),
        decreases profile.rules.len() - i,
    {
        let ghost s0 = profile.rules@;
        proof {
            lemma_view_rules(s0);
        }
        let (id, rule) = profile.rules.remove(i);
        proof {
            lemma_view_rules_reinsert(s0, i as int, (id, rule));
        }
        let mut anc: Vec<String> = Vec::new();
        proof {
            assert(texts(anc@) =~= Seq::<Seq<char>>::empty());
        }
        match resolve_rule(rule, &profile.rules, &mut resolved, COMPOSE_DEPTH, &mut anc) {
            Err(e) => {
                return Err(e);
            },
            Ok(x) => {
                proof {
                    lemma_view_rules_reinsert(s0, i as int, (id, x));
                }
                profile.rules.insert(i, (id, x));
            },
        }
        i = i + 1;
    }
    Ok(profile)
}

/// `rule` laid over the profile's rule `id`, or added as a new top-level rule.
pub open spec fn overlay_rule(p: SProfile, id: Seq<char>, rule: SRule) -> SProfile {
    match vget(p.rules, id) {
        Some(existing) => SProfile { rules: upsert(p.rules, id, merge_rules(existing, rule)), ..p },
        None => SProfile {
            top_level_order: p.top_level_order.push(id),
            rules: upsert(p.rules, id, rule),
            ..p
        },
    }
}

/// Each rule of `rs` laid over the profile in turn.
pub open spec fn overlay_rules(p: SProfile, rs: Seq<(Seq<char>, SRule)>) -> SProfile
    decreases rs.len(),
{
    if rs.len() == 0 {
        p
    } else {
        overlay_rules(overlay_rule(p, rs[0].0, rs[0].1), rs.drop_first())
    }
}

/// The rules of each extension laid over the profile in turn.
pub open spec fn overlay_extends(p: SProfile, xs: Seq<SExtend>) -> SProfile
    decreases xs.len(),
{
    if xs.len() == 0 {
        p
    } else {
        overlay_extends(overlay_rules(p, xs[0].rules), xs.drop_first())
    }
}

/// An imported `base` profile merged with the local `overlay`.
pub open spec fn merge_profiles_spec(base: SProfile, overlay: SProfile) -> SProfile {
    let m0 = SProfile {
        name: overlay.name,
        version: if overlay.version > base.version {
            overlay.version
        } else {
            base.version
        },
        migrations: base.migrations + overlay.migrations,
        ..base
    };
    let m2 = overlay_rules(overlay_extends(m0, overlay.extends), overlay.rules);
    SProfile { imports: m2.imports + overlay.imports, ..m2 }
}

fn overlay_rule_into(p: &mut SchemaProfile, id: &String, rule: &BlockRule)
    ensures
        view_profile(*final(p)) == overlay_rule(view_profile(*old(p)), id@, view_rule(*rule)),
{
    proof {
        lemma_view_rules(p.rules@);
    }
    match find_rule(&p.rules, id.as_str()) {
        Some(j) => {
            proof {
                assert(vget(view_rules(p.rules@), id@) == Some(view_rule(p.rules@[j as int].1)));
            }
            let m = merge_block_rules(&p.rules[j].1, rule);
            upsert_rule(&mut p.rules, id.clone(), m);
        },
        None => {
            let ghost o0 = p.top_level_order@;
            p.top_level_order.push(id.clone());
            proof {
                assert(texts(p.top_level_order@) =~= texts(o0).push(id@));
            }
            upsert_rule(&mut p.rules, id.clone(), copy_rule(rule));
        },
    }
}

fn overlay_rules_into(p: &mut SchemaProfile, rs: &Vec<(String, BlockRule)>)
    ensures
        view_profile(*final(p)) == overlay_rules(view_profile(*old(p)), view_rules(rs@)),
{
    let ghost o = view_rules(rs@);
    let ghost target = overlay_rules(view_profile(*p), o);
    let mut i: usize = 0;
    proof {
        assert(o.subrange(0, o.len() as int) =~= o);
        lemma_view_rules(rs@);
    }
    while i < rs.len()
        invariant
            o == view_rules(rs@),
            o.len() == rs@.len(),
            forall|j: int| 0 <= j < rs@.len() ==> #[trigger] o[j] == (rs@[j].0@, view_rule(rs@[j].1)),
            i <= rs@.len(),
            target == overlay_rules(view_profile(*p), o.subrange(i as int, o.len() as int)),
        decreases rs.len() - i,
    {
        proof {
            let rest = o.subrange(i as int, o.len() as int);
            assert(rest[0] == o[i as int]);
            assert(rest.drop_first() =~= o.subrange(i + 1, o.len() as int));
        }
        overlay_rule_into(p, &rs[i].0, &rs[i].1);
        i = i + 1;
    }
    proof {
        assert(o.subrange(i as int, o.len() as int) =~= Seq::<(Seq<char>, SRule)>::empty());
    }
}

/// The rules of an `extend` overlay laid over `profile`.
pub fn apply_extend(profile: &mut SchemaProfile, extend: &ExtendSpec)
    ensures
        view_profile(*final(profile)) == overlay_rules(
            view_profile(*old(profile)),
            view_extend(*extend).rules,
        ),
{
    overlay_rules_into(profile, &extend.rules);
}

/// Merge an imported base profile with local overlays and extensions.
pub fn merge_profiles(base: SchemaProfile, overlay: SchemaProfile) -> (r: SchemaProfile)
    ensures
        view_profile(r) == merge_profiles_spec(view_profile(base), view_profile(overlay)),
        vkeys_distinct(view_profile(base).rules) ==> vkeys_distinct(view_profile(r).rules),
{
    proof {
        if vkeys_distinct(view_profile(base).rules) {
            law_merge_profiles_keys_distinct(view_profile(base), view_profile(overlay));
        }
    }
    let ghost b0 = view_profile(base);
    let ghost o0 = view_profile(overlay);
    let SchemaProfile { name, version, rules, top_level_order: _, imports, extends, migrations } =
        overlay;
    let mut merged = base;
    merged.name = name;
    merged.version = if version > merged.version {
        version
    } else {
        merged.version
    };
    let mut migrations = migrations;
    let ghost mg0 = merged.migrations@;
    let ghost mg1 = migrations@;
    merged.migrations.append(&mut migrations);
    proof {
        assert(view_migrations(merged.migrations@) =~= view_migrations(mg0) + view_migrations(mg1));
    }
    let ghost xs = view_extends(extends@);
    let ghost target = overlay_extends(view_profile(merged), xs);
    let mut i: usize = 0;
    proof {
        assert(xs.subrange(0, xs.len() as int) =~= xs);
    }
    while i < extends.len()
        invariant
            xs == view_extends(extends@),
            i <= extends@.len(),
            target == overlay_extends(view_profile(merged), xs.subrange(i as int, xs.len() as int)),
        decreases extends.len() - i,
    {
        proof {
            let rest = xs.subrange(i as int, xs.len() as int);
            assert(rest[0] == xs[i as int]);
            assert(rest.drop_first() =~= xs.subrange(i + 1, xs.len() as int));
        }
        apply_extend(&mut merged, &extends[i]);
        i = i + 1;
    }
    proof {
        assert(xs.subrange(i as int, xs.len() as int) =~= Seq::<SExtend>::empty());
    }
    overlay_rules_into(&mut merged, &rules);
    let mut imports = imports;
    let ghost im0 = merged.imports@;
    let ghost im1 = imports@;
    merged.imports.append(&mut imports);
    proof {
        assert(view_imports(merged.imports@) =~= view_imports(im0) + view_imports(im1));
    }
    merged
}

// ---------------------------------------------------------------------------
// Laws
// ---------------------------------------------------------------------------

proof fn lemma_vkey_index_is<V>(s: Seq<(Seq<char>, V)>, k: Seq<char>, i: int)
    requires
        0 <= i < s.len(),
        s[i].0 == k,
        forall|j: int| 0 <= j < i ==> s[j].0 != k,
    ensures
        vkey_index(s, k) == i,
{
    crate::profile_spec::lemma_vkey_index(s, k);
}

proof fn lemma_vkey_index_absent<V>(s: Seq<(Seq<char>, V)>, k: Seq<char>)
    requires
        forall|j: int| 0 <= j < s.len() ==> s[j].0 != k,
    ensures
        vkey_index(s, k) == -1,
{
    crate::profile_spec::lemma_vkey_index(s, k);
}

/// Map insertion, then lookup: the inserted value is found under its key, and every other key
/// keeps its value.
pub proof fn lemma_upsert_get<V>(s: Seq<(Seq<char>, V)>, k: Seq<char>, v: V, k2: Seq<char>)
    ensures
        vget(upsert(s, k, v), k2) == if k2 == k {
            Some(v)
        } else {
            vget(s, k2)
        },
{
    crate::profile_spec::lemma_vkey_index(s, k);
    crate::profile_spec::lemma_vkey_index(s, k2);
    let i = vkey_index(s, k);
    let u = upsert(s, k, v);
    if i < 0 {
        if k2 == k {
            lemma_vkey_index_is(u, k2, s.len() as int);
        } else {
            let i2 = vkey_index(s, k2);
            if i2 < 0 {
                lemma_vkey_index_absent(u, k2);
            } else {
                lemma_vkey_index_is(u, k2, i2);
            }
        }
    } else {
        if k2 == k {
            lemma_vkey_index_is(u, k2, i);
        } else {
            let i2 = vkey_index(s, k2);
            if i2 < 0 {
                lemma_vkey_index_absent(u, k2);
            } else {
                lemma_vkey_index_is(u, k2, i2);
            }
        }
    }
}

/// Distinct keys.
pub open spec fn vkeys_distinct<V>(s: Seq<(Seq<char>, V)>) -> bool {
    forall|i: int, j: int| 0 <= i < j < s.len() ==> s[i].0 != s[j].0
}

/// Inserting all entries of `o` (whose keys are distinct): a key of `o` maps to its value in
/// `o`, any other key keeps its value.
pub proof fn lemma_upsert_all_get<V>(s: Seq<(Seq<char>, V)>, o: Seq<(Seq<char>, V)>, k: Seq<char>)
    requires
        vkeys_distinct(o),
    ensures
        vget(upsert_all(s, o), k) == if vget(o, k) is Some {
            vget(o, k)
        } else {
            vget(s, k)
        },
    decreases o.len(),
{
    if o.len() > 0 {
        let rest = o.drop_first();
        assert(vkeys_distinct(rest)) by {
            assert forall|i: int, j: int| 0 <= i < j < rest.len() implies rest[i].0 != rest[j].0 by {
                assert(rest[i] == o[i + 1] && rest[j] == o[j + 1]);
            }
        }
        lemma_upsert_all_get(upsert(s, o[0].0, o[0].1), rest, k);
        lemma_upsert_get(s, o[0].0, o[0].1, k);
        crate::profile_spec::lemma_vkey_index(rest, k);
        if k == o[0].0 {
            lemma_vkey_index_is(o, k, 0);
            assert forall|j: int| 0 <= j < rest.len() implies rest[j].0 != k by {
                assert(rest[j] == o[j + 1]);
            }
            lemma_vkey_index_absent(rest, k);
        } else {
            let i = vkey_index(rest, k);
            if i < 0 {
                assert forall|j: int| 0 <= j < o.len() implies o[j].0 != k by {
                    if j > 0 {
                        assert(o[j] == rest[j - 1]);
                    }
                }
                lemma_vkey_index_absent(o, k);
            } else {
                assert(o[i + 1] == rest[i]);
                assert forall|j: int| 0 <= j < i + 1 implies o[j].0 != k by {
                    if j > 0 {
                        assert(o[j] == rest[j - 1]);
                    }
                }
                lemma_vkey_index_is(o, k, i + 1);
            }
        }
    }
}

/// Merging rules: the overlay's fields and nested rules win, the base's others stay, and the
/// merged rule takes the overlay's id.
pub proof fn law_merge_overlay_wins(base: SRule, overlay: SRule, k: Seq<char>)
    requires
        vkeys_distinct(overlay.fields),
        vkeys_distinct(overlay.nested),
    ensures
        merge_rules(base, overlay).id == overlay.id,
        vget(merge_rules(base, overlay).fields, k) == if vget(overlay.fields, k) is Some {
            vget(overlay.fields, k)
        } else {
            vget(base.fields, k)
        },
        vget(merge_rules(base, overlay).nested, k) == if vget(overlay.nested, k) is Some {
            vget(overlay.nested, k)
        } else {
            vget(base.nested, k)
        },
{
    lemma_upsert_all_get(base.fields, overlay.fields, k);
    lemma_upsert_all_get(base.nested, overlay.nested, k);
}

proof fn lemma_append_new(s: Seq<Seq<char>>, o: Seq<Seq<char>>)
    ensures
        append_new(s, o).len() >= s.len(),
        append_new(s, o).subrange(0, s.len() as int) == s,
        forall|x: Seq<char>| #[trigger] append_new(s, o).contains(x) <==> s.contains(x) || o.contains(x),
    decreases o.len(),
{
    if o.len() > 0 {
        let s1 = if s.contains(o[0]) {
            s
        } else {
            s.push(o[0])
        };
        lemma_append_new(s1, o.drop_first());
        let r = append_new(s1, o.drop_first());
        assert(r.subrange(0, s.len() as int) =~= s) by {
            assert forall|k: int| 0 <= k < s.len() implies r.subrange(0, s.len() as int)[k] == s[k] by {
                assert(r.subrange(0, s1.len() as int)[k] == s1[k]);
                assert(s1[k] == s[k]);
            }
        }
        assert forall|x: Seq<char>| #[trigger] r.contains(x) <==> s.contains(x) || o.contains(x) by {
            if o.contains(x) && !o.drop_first().contains(x) {
                let k = choose|k: int| 0 <= k < o.len() && o[k] == x;
                if k > 0 {
                    assert(o.drop_first()[k - 1] == x);
                }
                assert(s1.contains(x)) by {
                    if !s.contains(o[0]) {
                        assert(s1[s.len() as int] == o[0]);
                    }
                }
            }
            if o.drop_first().contains(x) {
                let k = choose|k: int| 0 <= k < o.drop_first().len() && o.drop_first()[k] == x;
                assert(o[k + 1] == x);
            }
            if s1.contains(x) && !s.contains(x) {
                let k = choose|k: int| 0 <= k < s1.len() && s1[k] == x;
                if k < s.len() {
                    assert(s1[k] == s[k]);
                }
                assert(o[0] == x);
            }
            if s.contains(x) {
                let k = choose|k: int| 0 <= k < s.len() && s[k] == x;
                assert(s1[k] == x);
            }
        }
    }
}

proof fn lemma_append_new_variants(s: Seq<SVariant>, o: Seq<SVariant>)
    ensures
        append_new_variants(s, o).len() >= s.len(),
        append_new_variants(s, o).subrange(0, s.len() as int) == s,
        forall|n: Seq<char>| #[trigger] has_variant(append_new_variants(s, o), n) <==> has_variant(s, n) || has_variant(o, n),
    decreases o.len(),
{
    if o.len() > 0 {
        let s1 = if has_variant(s, o[0].name) {
            s
        } else {
            s.push(o[0])
        };
        lemma_append_new_variants(s1, o.drop_first());
        let r = append_new_variants(s1, o.drop_first());
        assert(r.subrange(0, s.len() as int) =~= s) by {
            assert forall|k: int| 0 <= k < s.len() implies r.subrange(0, s.len() as int)[k] == s[k] by {
                assert(r.subrange(0, s1.len() as int)[k] == s1[k]);
                assert(s1[k] == s[k]);
            }
        }
        assert forall|n: Seq<char>| #[trigger] has_variant(r, n) <==> has_variant(s, n) || has_variant(o, n) by {
            if has_variant(o, n) && !has_variant(o.drop_first(), n) {
                let k = choose|k: int| 0 <= k < o.len() && #[trigger] o[k].name == n;
                if k > 0 {
                    assert(o.drop_first()[k - 1].name == n);
                }
                assert(has_variant(s1, n)) by {
                    if !has_variant(s, o[0].name) {
                        assert(s1[s.len() as int].name == n);
                    }
                }
            }
            if has_variant(o.drop_first(), n) {
                let k = choose|k: int| 0 <= k < o.drop_first().len() && #[trigger] o.drop_first()[k].name == n;
                assert(o[k + 1].name == n);
            }
            if has_variant(s1, n) && !has_variant(s, n) {
                let k = choose|k: int| 0 <= k < s1.len() && #[trigger] s1[k].name == n;
                if k < s.len() {
                    assert(s1[k] == s[k]);
                }
                assert(o[0].name == n);
            }
            if has_variant(s, n) {
                let k = choose|k: int| 0 <= k < s.len() && #[trigger] s[k].name == n;
                assert(s1[k].name == n);
            }
        }
    }
}

/// Merging a base rule under an overlay keeps the base's variants first and adds each of the
/// overlay's whose name is new: a variant name is known to the merged rule exactly when either
/// rule knows it.
pub proof fn law_merge_keeps_variants(base: SRule, overlay: SRule)
    ensures
        merge_rules(base, overlay).variants.subrange(0, base.variants.len() as int) == base.variants,
        forall|n: Seq<char>|
            #[trigger] has_variant(merge_rules(base, overlay).variants, n) <==> has_variant(base.variants, n)
                || has_variant(overlay.variants, n),
{
    lemma_append_new_variants(base.variants, overlay.variants);
}

/// Merging a base rule under an overlay keeps the base's mixes and nested order first, and
/// adds each of the overlay's that is new: the merged lists hold exactly the entries of either.
pub proof fn law_merge_keeps_lists(base: SRule, overlay: SRule)
    ensures
        merge_rules(base, overlay).mixes.subrange(0, base.mixes.len() as int) == base.mixes,
        forall|x: Seq<char>|
            #[trigger] merge_rules(base, overlay).mixes.contains(x) <==> base.mixes.contains(x)
                || overlay.mixes.contains(x),
        merge_rules(base, overlay).nested_order.subrange(0, base.nested_order.len() as int) == base.nested_order,
        forall|x: Seq<char>|
            #[trigger] merge_rules(base, overlay).nested_order.contains(x) <==> base.nested_order.contains(x)
                || overlay.nested_order.contains(x),
{
    lemma_append_new(base.mixes, overlay.mixes);
    lemma_append_new(base.nested_order, overlay.nested_order);
}

/// Merging a base rule under an overlay keeps both their permissions: the merged rule allows
/// extra fields, extra nested blocks and `@schemaless` bodies whenever the base or the overlay
/// does, and only then; it inherits the base's `extends` unless the overlay names one.
pub proof fn law_merge_keeps_permissions(base: SRule, overlay: SRule)
    ensures
        merge_rules(base, overlay).allow_extra_fields <==> base.allow_extra_fields || overlay.allow_extra_fields,
        merge_rules(base, overlay).allow_extra_nested <==> base.allow_extra_nested || overlay.allow_extra_nested,
        merge_rules(base, overlay).schemaless <==> base.schemaless || overlay.schemaless,
        merge_rules(base, overlay).extends == if overlay.extends is Some {
            overlay.extends
        } else {
            base.extends
        },
{
}

/// The `extends` check succeeds exactly when every base exists and no rule is its own
/// ancestor.
pub proof fn law_extends_dag(rules: Seq<(Seq<char>, SRule)>)
    ensures
        extends_dag(rules) is Ok <==> (forall|i: int|
            0 <= i < rules.len() ==> (#[trigger] rules[i].1.extends matches Some(b) ==> vkey_index(rules, b) >= 0))
            && extends_acyclic(rules),
{
    lemma_first_unknown(rules, 0);
    if first_unknown_base(rules, 0) == -1 {
        assert forall|i: int|
            0 <= i < rules.len() implies (#[trigger] rules[i].1.extends matches Some(b) ==> vkey_index(rules, b) >= 0) by {
            lemma_first_unknown_none(rules, 0, i);
        }
    }
}

/// Every rule of an overlay is in the overlaid profile, and rules already there stay there.
pub proof fn law_overlay_rules_present(p: SProfile, rs: Seq<(Seq<char>, SRule)>, k: Seq<char>)
    ensures
        vget(p.rules, k) is Some ==> vget(overlay_rules(p, rs).rules, k) is Some,
        (exists|i: int| 0 <= i < rs.len() && #[trigger] rs[i].0 == k) ==> vget(overlay_rules(p, rs).rules, k) is Some,
    decreases rs.len(),
{
    if rs.len() > 0 {
        let p1 = overlay_rule(p, rs[0].0, rs[0].1);
        match vget(p.rules, rs[0].0) {
            Some(existing) => {
                lemma_upsert_get(p.rules, rs[0].0, merge_rules(existing, rs[0].1), k);
            },
            None => {
                lemma_upsert_get(p.rules, rs[0].0, rs[0].1, k);
            },
        }
        law_overlay_rules_present(p1, rs.drop_first(), k);
        if exists|i: int| 0 <= i < rs.len() && #[trigger] rs[i].0 == k {
            let i = choose|i: int| 0 <= i < rs.len() && #[trigger] rs[i].0 == k;
            if i > 0 {
                assert(rs.drop_first()[i - 1].0 == k);
            }
        }
    }
}

/// Merging profiles: the overlay's name, the larger version, and every overlay rule present.
pub proof fn law_merge_profiles(base: SProfile, overlay: SProfile, k: Seq<char>)
    ensures
        merge_profiles_spec(base, overlay).name == overlay.name,
        merge_profiles_spec(base, overlay).version >= base.version,
        merge_profiles_spec(base, overlay).version >= overlay.version,
        (exists|i: int| 0 <= i < overlay.rules.len() && #[trigger] overlay.rules[i].0 == k) ==> vget(
            merge_profiles_spec(base, overlay).rules,
            k,
        ) is Some,
        merge_profiles_spec(base, overlay).imports == base.imports + overlay.imports,
        merge_profiles_spec(base, overlay).migrations == base.migrations + overlay.migrations,
{
    let m0 = SProfile {
        name: overlay.name,
        version: if overlay.version > base.version {
            overlay.version
        } else {
            base.version
        },
        migrations: base.migrations + overlay.migrations,
        ..base
    };
    lemma_overlay_extends_keeps(m0, overlay.extends);
    law_overlay_rules_present(overlay_extends(m0, overlay.extends), overlay.rules, k);
    lemma_overlay_rules_keeps(overlay_extends(m0, overlay.extends), overlay.rules);
}

proof fn lemma_overlay_rules_keeps(p: SProfile, rs: Seq<(Seq<char>, SRule)>)
    ensures
        overlay_rules(p, rs).name == p.name,
        overlay_rules(p, rs).version == p.version,
        overlay_rules(p, rs).imports == p.imports,
        overlay_rules(p, rs).migrations == p.migrations,
    decreases rs.len(),
{
    if rs.len() > 0 {
        lemma_overlay_rules_keeps(overlay_rule(p, rs[0].0, rs[0].1), rs.drop_first());
    }
}

proof fn lemma_overlay_extends_keeps(p: SProfile, xs: Seq<SExtend>)
    ensures
        overlay_extends(p, xs).name == p.name,
        overlay_extends(p, xs).version == p.version,
        overlay_extends(p, xs).imports == p.imports,
        overlay_extends(p, xs).migrations == p.migrations,
    decreases xs.len(),
{
    if xs.len() > 0 {
        lemma_overlay_rules_keeps(p, xs[0].rules);
        lemma_overlay_extends_keeps(overlay_rules(p, xs[0].rules), xs.drop_first());
    }
}

proof fn lemma_compose_rules_keys(rules: Seq<(Seq<char>, SRule)>, i: int, resolved: Seq<(Seq<char>, SRule)>)
    requires
        compose_rules(rules, i, resolved) is Ok,
    ensures
        compose_rules(rules, i, resolved)->Ok_0.len() == rules.len(),
        forall|j: int|
            0 <= j < rules.len() ==> (#[trigger] compose_rules(rules, i, resolved)->Ok_0[j]).0
                == rules[j].0,
    decreases rules.len() - i,
{
    if 0 <= i < rules.len() {
        let (c, res) = resolve_spec(rules[i].1, rules.remove(i), resolved, COMPOSE_DEPTH as nat, Seq::empty());
        let x = c->Ok_0;
        let next = rules.update(i, (rules[i].0, x));
        lemma_compose_rules_keys(next, i + 1, res);
        assert forall|j: int| 0 <= j < rules.len() implies (#[trigger] compose_rules(
            rules,
            i,
            resolved,
        )->Ok_0[j]).0 == rules[j].0 by {
            assert(next[j].0 == rules[j].0);
        }
    }
}

/// Composition keeps the profile: the same rule ids in the same order, and the same name,
/// version, top-level order, imports, extensions and migrations; only rule bodies change.
pub proof fn law_compose_keeps_rule_ids(p: SProfile)
    requires
        compose_spec(p) is Ok,
    ensures
        ({
            let q = compose_spec(p)->Ok_0;
            &&& q.rules.len() == p.rules.len()
            &&& forall|j: int| 0 <= j < p.rules.len() ==> (#[trigger] q.rules[j]).0 == p.rules[j].0
            &&& q.name == p.name
            &&& q.version == p.version
            &&& q.top_level_order == p.top_level_order
            &&& q.imports == p.imports
            &&& q.extends == p.extends
            &&& q.migrations == p.migrations
        }),
{
    lemma_compose_rules_keys(p.rules, 0, Seq::empty());
}

/// Map insertion keeps keys distinct.
pub proof fn lemma_upsert_distinct<V>(s: Seq<(Seq<char>, V)>, k: Seq<char>, v: V)
    requires
        vkeys_distinct(s),
    ensures
        vkeys_distinct(upsert(s, k, v)),
{
    crate::profile_spec::lemma_vkey_index(s, k);
    let u = upsert(s, k, v);
    assert forall|i: int, j: int| 0 <= i < j < u.len() implies u[i].0 != u[j].0 by {
        if vkey_index(s, k) < 0 {
            if j == s.len() {
                assert(u[i] == s[i]);
            } else {
                assert(u[i] == s[i] && u[j] == s[j]);
            }
        } else {
            let x = vkey_index(s, k);
            assert(u[i].0 == s[i].0 && u[j].0 == s[j].0);
        }
    }
}

/// Inserting every entry keeps keys distinct.
pub proof fn lemma_upsert_all_distinct<V>(s: Seq<(Seq<char>, V)>, o: Seq<(Seq<char>, V)>)
    requires
        vkeys_distinct(s),
    ensures
        vkeys_distinct(upsert_all(s, o)),
    decreases o.len(),
{
    if o.len() > 0 {
        lemma_upsert_distinct(s, o[0].0, o[0].1);
        lemma_upsert_all_distinct(upsert(s, o[0].0, o[0].1), o.drop_first());
    }
}

/// Merging rules keeps each field key and each nested rule id once, when the base does.
pub proof fn law_merge_rules_keys_distinct(base: SRule, overlay: SRule)
    requires
        vkeys_distinct(base.fields),
        vkeys_distinct(base.nested),
    ensures
        vkeys_distinct(merge_rules(base, overlay).fields),
        vkeys_distinct(merge_rules(base, overlay).nested),
{
    lemma_upsert_all_distinct(base.fields, overlay.fields);
    lemma_upsert_all_distinct(base.nested, overlay.nested);
}

proof fn lemma_overlay_rules_distinct(p: SProfile, rs: Seq<(Seq<char>, SRule)>)
    requires
        vkeys_distinct(p.rules),
    ensures
        vkeys_distinct(overlay_rules(p, rs).rules),
    decreases rs.len(),
{
    if rs.len() > 0 {
        match vget(p.rules, rs[0].0) {
            Some(existing) => lemma_upsert_distinct(p.rules, rs[0].0, merge_rules(existing, rs[0].1)),
            None => lemma_upsert_distinct(p.rules, rs[0].0, rs[0].1),
        }
        lemma_overlay_rules_distinct(overlay_rule(p, rs[0].0, rs[0].1), rs.drop_first());
    }
}

proof fn lemma_overlay_extends_distinct(p: SProfile, xs: Seq<SExtend>)
    requires
        vkeys_distinct(p.rules),
    ensures
        vkeys_distinct(overlay_extends(p, xs).rules),
    decreases xs.len(),
{
    if xs.len() > 0 {
        lemma_overlay_rules_distinct(p, xs[0].rules);
        lemma_overlay_extends_distinct(overlay_rules(p, xs[0].rules), xs.drop_first());
    }
}

/// Merging profiles keeps each rule id once, when the base does.
pub proof fn law_merge_profiles_keys_distinct(base: SProfile, overlay: SProfile)
    requires
        vkeys_distinct(base.rules),
    ensures
        vkeys_distinct(merge_profiles_spec(base, overlay).rules),
{
    let m0 = SProfile {
        name: overlay.name,
        version: if overlay.version > base.version {
            overlay.version
        } else {
            base.version
        },
        migrations: base.migrations + overlay.migrations,
        ..base
    };
    lemma_overlay_extends_distinct(m0, overlay.extends);
    lemma_overlay_rules_distinct(overlay_extends(m0, overlay.extends), overlay.rules);
}

} // verus!
