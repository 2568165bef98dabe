//! Cross-block reference resolution: every `@kind/label` and `@/label` value must name a
//! labelled top-level block.

use vstd::prelude::*;

use crate::ast::{ref_text, view_ref, BsolRef, SRef};
use crate::compose::unit_res;
use crate::error::{schema_err, BsolError, SError};
use crate::text::{cat3, string_is};
use crate::validated::{
    view_vblock, view_vblocks, view_ventries, view_vvalue, view_vvalues, SVBlock, SVDoc,
    SVValue, ValidatedBlock, ValidatedDocument, ValidatedValue,
};

verus! {

broadcast use crate::validated::group_validated_views;

/// A top-level block carries the reference's label and, when the reference names a kind, has
/// that rule id or block kind.
pub open spec fn ref_resolves(top: Seq<SVBlock>, r: SRef) -> bool {
    exists|i: int|
        0 <= i < top.len() && #[trigger] top[i].label == Some(r.label) && match r.rule_kind {
            Some(kind) => top[i].rule_id == kind || top[i].kind == kind,
            None => true,
        }
}

pub open spec fn unresolved_err(r: SRef) -> SError {
    schema_err(r.span, "unresolved reference `"@ + ref_text(r) + "`"@)
}

/// The first unresolved reference inside a value, in order.
pub open spec fn check_value(v: SVValue, top: Seq<SVBlock>) -> Result<(), SError>
    decreases v, 1nat,
{
    match v {
        SVValue::Ref(r) => if ref_resolves(top, r) {
            Ok(())
        } else {
            Err(unresolved_err(r))
        },
        SVValue::List(items) => check_values(items, top),
        SVValue::Dict(entries) => check_entries(entries, top),
        SVValue::Block(_, _, values) => check_entries(values, top),
        _ => Ok(()),
    }
}

pub open spec fn check_values(items: Seq<SVValue>, top: Seq<SVBlock>) -> Result<(), SError>
    decreases items, 0nat,
{
    if items.len() == 0 {
        Ok(())
    } else {
        match check_value(items[0], top) {
            Err(e) => Err(e),
            Ok(()) => check_values(items.subrange(1, items.len() as int), top),
        }
    }
}

pub open spec fn check_entries(entries: Seq<(Seq<char>, SVValue)>, top: Seq<SVBlock>) -> Result<(), SError>
    decreases entries, 0nat,
{
    if entries.len() == 0 {
        Ok(())
    } else {
        match check_value(entries[0].1, top) {
            Err(e) => Err(e),
            Ok(()) => check_entries(entries.subrange(1, entries.len() as int), top),
        }
    }
}

/// The first unresolved reference in a block: its values first, then its nested blocks.
pub open spec fn check_block(b: SVBlock, top: Seq<SVBlock>) -> Result<(), SError>
    decreases b, 1nat,
{
    match check_entries(b.values, top) {
        Err(e) => Err(e),
        Ok(()) => check_blocks(b.nested, top),
    }
}

pub open spec fn check_blocks(bs: Seq<SVBlock>, top: Seq<SVBlock>) -> Result<(), SError>
    decreases bs, 0nat,
{
    if bs.len() == 0 {
        Ok(())
    } else {
        match check_block(bs[0], top) {
            Err(e) => Err(e),
            Ok(()) => check_blocks(bs.subrange(1, bs.len() as int), top),
        }
    }
}

/// Every reference of the document resolves against its top-level blocks; else the first one
/// that does not is reported.
pub open spec fn references_spec(d: SVDoc) -> Result<(), SError> {
    check_blocks(d.blocks, d.blocks)
}

/// The references inside a value, in order.
pub open spec fn value_refs(v: SVValue) -> Seq<SRef>
    decreases v, 1nat,
{
    match v {
        SVValue::Ref(r) => seq![r],
        SVValue::List(items) => values_refs(items),
        SVValue::Dict(entries) => entries_refs(entries),
        SVValue::Block(_, _, values) => entries_refs(values),
        _ => Seq::empty(),
    }
}

pub open spec fn values_refs(items: Seq<SVValue>) -> Seq<SRef>
    decreases items, 0nat,
{
    if items.len() == 0 {
        Seq::empty()
    } else {
        value_refs(items[0]) + values_refs(items.subrange(1, items.len() as int))
    }
}

pub open spec fn entries_refs(entries: Seq<(Seq<char>, SVValue)>) -> Seq<SRef>
    decreases entries, 0nat,
{
    if entries.len() == 0 {
        Seq::empty()
    } else {
        value_refs(entries[0].1) + entries_refs(entries.subrange(1, entries.len() as int))
    }
}

/// The references of a block: its values', then its nested blocks'.
pub open spec fn block_refs(b: SVBlock) -> Seq<SRef>
    decreases b, 1nat,
{
    entries_refs(b.values) + blocks_refs(b.nested)
}

pub open spec fn blocks_refs(bs: Seq<SVBlock>) -> Seq<SRef>
    decreases bs, 0nat,
{
    if bs.len() == 0 {
        Seq::empty()
    } else {
        block_refs(bs[0]) + blocks_refs(bs.subrange(1, bs.len() as int))
    }
}

pub open spec fn all_resolve(top: Seq<SVBlock>, refs: Seq<SRef>) -> bool {
    forall|i: int| 0 <= i < refs.len() ==> ref_resolves(top, #[trigger] refs[i])
}

proof fn lemma_all_resolve_concat(top: Seq<SVBlock>, a: Seq<SRef>, b: Seq<SRef>)
    ensures
        all_resolve(top, a + b) <==> all_resolve(top, a) && all_resolve(top, b),
{
    if all_resolve(top, a + b) {
        assert forall|i: int| 0 <= i < a.len() implies ref_resolves(top, #[trigger] a[i]) by {
            assert((a + b)[i] == a[i]);
        }
        assert forall|i: int| 0 <= i < b.len() implies ref_resolves(top, #[trigger] b[i]) by {
            assert((a + b)[a.len() + i] == b[i]);
        }
    }
    if all_resolve(top, a) && all_resolve(top, b) {
        assert forall|i: int| 0 <= i < (a + b).len() implies ref_resolves(top, #[trigger] (a + b)[i]) by {
            if i < a.len() {
                assert((a + b)[i] == a[i]);
            } else {
                assert((a + b)[i] == b[i - a.len()]);
            }
        }
    }
}

proof fn lemma_check_value(v: SVValue, top: Seq<SVBlock>)
    ensures
        check_value(v, top) is Ok <==> all_resolve(top, value_refs(v)),
    decreases v, 1nat,
{
    match v {
        SVValue::Ref(r) => {
            assert(value_refs(v)[0] == r);
        },
        SVValue::List(items) => {
            lemma_check_values(items, top);
        },
        SVValue::Dict(entries) => {
            lemma_check_entries(entries, top);
        },
        SVValue::Block(_, _, values) => {
            lemma_check_entries(values, top);
        },
        _ => {},
    }
}

proof fn lemma_check_values(items: Seq<SVValue>, top: Seq<SVBlock>)
    ensures
        check_values(items, top) is Ok <==> all_resolve(top, values_refs(items)),
    decreases items, 0nat,
{
    if items.len() > 0 {
        let rest = items.subrange(1, items.len() as int);
        lemma_check_value(items[0], top);
        lemma_check_values(rest, top);
        lemma_all_resolve_concat(top, value_refs(items[0]), values_refs(rest));
    }
}

proof fn lemma_check_entries(entries: Seq<(Seq<char>, SVValue)>, top: Seq<SVBlock>)
    ensures
        check_entries(entries, top) is Ok <==> all_resolve(top, entries_refs(entries)),
    decreases entries, 0nat,
{
    if entries.len() > 0 {
        let rest = entries.subrange(1, entries.len() as int);
        lemma_check_value(entries[0].1, top);
        lemma_check_entries(rest, top);
        lemma_all_resolve_concat(top, value_refs(entries[0].1), entries_refs(rest));
    }
}

proof fn lemma_check_block(b: SVBlock, top: Seq<SVBlock>)
    ensures
        check_block(b, top) is Ok <==> all_resolve(top, block_refs(b)),
    decreases b, 1nat,
{
    lemma_check_entries(b.values, top);
    lemma_check_blocks(b.nested, top);
    lemma_all_resolve_concat(top, entries_refs(b.values), blocks_refs(b.nested));
}

proof fn lemma_check_blocks(bs: Seq<SVBlock>, top: Seq<SVBlock>)
    ensures
        check_blocks(bs, top) is Ok <==> all_resolve(top, blocks_refs(bs)),
    decreases bs, 0nat,
{
    if bs.len() > 0 {
        let rest = bs.subrange(1, bs.len() as int);
        lemma_check_block(bs[0], top);
        lemma_check_blocks(rest, top);
        lemma_all_resolve_concat(top, block_refs(bs[0]), blocks_refs(rest));
    }
}

/// Reference resolution succeeds exactly when every reference in the document, in values and
/// nested blocks alike, names a labelled top-level block of the kind it asks for.
pub proof fn law_references_resolve(d: SVDoc)
    ensures
        references_spec(d) is Ok <==> forall|i: int|
            0 <= i < blocks_refs(d.blocks).len() ==> ref_resolves(
                d.blocks,
                #[trigger] blocks_refs(d.blocks)[i],
            ),
{
    lemma_check_blocks(d.blocks, d.blocks);
}

/// A reference resolves only against a top-level block with its label and, when it names a
/// kind, with that rule id or block kind: resolution of a document succeeds exactly when each of
/// its references has such a block, and a block with the label but another rule id and kind does
/// not count.
pub proof fn law_reference_targets(d: SVDoc)
    ensures
        references_spec(d) is Ok <==> forall|i: int|
            0 <= i < blocks_refs(d.blocks).len() ==> exists|b: int|
                0 <= b < d.blocks.len() && (#[trigger] d.blocks[b]).label == Some(
                    (#[trigger] blocks_refs(d.blocks)[i]).label,
                ) && match blocks_refs(d.blocks)[i].rule_kind {
                    Some(k) => d.blocks[b].rule_id == k || d.blocks[b].kind == k,
                    None => true,
                },
{
    law_references_resolve(d);
}

fn ensure_ref_resolves(r: &BsolRef, top: &Vec<ValidatedBlock>) -> (res: Result<(), BsolError>)
    ensures
        unit_res(res) == if ref_resolves(view_vblocks(top@), view_ref(*r)) {
            Ok(())
        } else {
            Err(unresolved_err(view_ref(*r)))
        },
{
    let ghost t = view_vblocks(top@);
    let mut i: usize = 0;
    while i < top.len()
        invariant
            t == view_vblocks(top@),
            t.len() == top@.len(),
            i <= top@.len(),
            forall|j: int|
                0 <= j < i ==> !(#[trigger] t[j].label == Some(view_ref(*r).label) && match view_ref(
                    *r,
                ).rule_kind {
                    Some(kind) => t[j].rule_id == kind || t[j].kind == kind,
                    None => true,
                }),
        decreases top.len() - i,
    {
        let b = &top[i];
        proof {
            assert(t[i as int] == view_vblock(top@[i as int]));
        }
        let label_ok = match &b.label {
            Some(l) => string_is(l, r.label.as_str()),
            None => false,
        };
        if label_ok {
            let kind_ok = match &r.rule_kind {
                Some(kind) => string_is(&b.rule_id, kind.as_str()) || string_is(&b.kind, kind.as_str()),
                None => true,
            };
            if kind_ok {
                proof {
                    assert(t[i as int].label == Some(view_ref(*r).label));
                }
                return Ok(());
            }
        }
        i = i + 1;
    }
    Err(BsolError::schema_at(r.span, cat3("unresolved reference `", r.display().as_str(), "`")))
}

fn check_value_exec(v: &ValidatedValue, top: &Vec<ValidatedBlock>) -> (res: Result<(), BsolError>)
    ensures
        unit_res(res) == check_value(view_vvalue(*v), view_vblocks(top@)),
    decreases v,
{
    let ghost t = view_vblocks(top@);
    match v {
        ValidatedValue::Ref(r) => ensure_ref_resolves(r, top),
        ValidatedValue::List(items) => {
            let ghost vs = view_vvalues(items@);
            let mut i: usize = 0;
            proof {
                assert(vs.subrange(0, vs.len() as int) =~= vs);
            }
            while i < items.len()
                invariant
                    *v == ValidatedValue::List(*items),
                    t == view_vblocks(top@),
                    vs == view_vvalues(items@),
                    vs.len() == items@.len(),
                    i <= items@.len(),
                    check_values(vs, t) == check_values(vs.subrange(i as int, vs.len() as int), t),
                decreases items.len() - i,
            {
                proof {
                    assert(decreases_to!(*v => (*v)->List_0));
                    assert(decreases_to!(*items => items@));
                    assert(decreases_to!(items@ => items@[i as int]));
                    let rest = vs.subrange(i as int, vs.len() as int);
                    assert(rest[0] == view_vvalue(items@[i as int]));
                    assert(rest.subrange(1, rest.len() as int) =~= vs.subrange(i + 1, vs.len() as int));
                }
                match check_value_exec(&items[i], top) {
                    Err(e) => {
                        return Err(e);
                    },
                    Ok(()) => {},
                }
                i = i + 1;
            }
            Ok(())
        },
        ValidatedValue::Dict(entries) => {
            let ghost es = view_ventries(entries@);
            let mut i: usize = 0;
            proof {
                assert(es.subrange(0, es.len() as int) =~= es);
            }
            while i < entries.len()
                invariant
                    *v == ValidatedValue::Dict(*entries),
                    t == view_vblocks(top@),
                    es == view_ventries(entries@),
                    es.len() == entries@.len(),
                    i <= entries@.len(),
                    check_entries(es, t) == check_entries(es.subrange(i as int, es.len() as int), t),
                decreases entries.len() - i,
            {
                proof {
                    assert(decreases_to!(*v => (*v)->Dict_0));
                    assert(decreases_to!(*entries => entries@));
                    assert(decreases_to!(entries@ => entries@[i as int]));
                    assert(decreases_to!(entries@[i as int] => entries@[i as int].1));
                    let rest = es.subrange(i as int, es.len() as int);
                    assert(rest[0].1 == view_vvalue(entries@[i as int].1));
                    assert(rest.subrange(1, rest.len() as int) =~= es.subrange(i + 1, es.len() as int));
                }
                match check_value_exec(&entries[i].1, top) {
                    Err(e) => {
                        return Err(e);
                    },
                    Ok(()) => {},
                }
                i = i + 1;
            }
            Ok(())
        },
        ValidatedValue::Block(b) => {
            let ghost es = view_ventries(b.values@);
            let mut i: usize = 0;
            proof {
                assert(es.subrange(0, es.len() as int) =~= es);
            }
            while i < b.values.len()
                invariant
                    *v == ValidatedValue::Block(*b),
                    t == view_vblocks(top@),
                    es == view_ventries(b.values@),
                    es.len() == b.values@.len(),
                    i <= b.values@.len(),
                    check_entries(es, t) == check_entries(es.subrange(i as int, es.len() as int), t),
                decreases b.values.len() - i,
            {
                proof {
                    assert(decreases_to!(*v => (*v)->Block_0));
                    assert(decreases_to!(*b => b.values));
                    assert(decreases_to!(b.values => b.values@));
                    assert(decreases_to!(b.values@ => b.values@[i as int]));
                    assert(decreases_to!(b.values@[i as int] => b.values@[i as int].1));
                    let rest = es.subrange(i as int, es.len() as int);
                    assert(rest[0].1 == view_vvalue(b.values@[i as int].1));
                    assert(rest.subrange(1, rest.len() as int) =~= es.subrange(i + 1, es.len() as int));
                }
                match check_value_exec(&b.values[i].1, top) {
                    Err(e) => {
                        return Err(e);
                    },
                    Ok(()) => {},
                }
                i = i + 1;
            }
            Ok(())
        },
        _ => Ok(()),
    }
}

fn check_block_exec(b: &ValidatedBlock, top: &Vec<ValidatedBlock>) -> (res: Result<(), BsolError>)
    ensures
        unit_res(res) == check_block(view_vblock(*b), view_vblocks(top@)),
    decreases b,
{
    let ghost t = view_vblocks(top@);
    let ghost es = view_ventries(b.values@);
    let mut i: usize = 0;
    proof {
        assert(es.subrange(0, es.len() as int) =~= es);
    }
    while i < b.values.len()
        invariant
            t == view_vblocks(top@),
            es == view_ventries(b.values@),
            es.len() == b.values@.len(),
            i <= b.values@.len(),
            check_entries(es, t) == check_entries(es.subrange(i as int, es.len() as int), t),
        decreases b.values.len() - i,
    {
        proof {
            let rest = es.subrange(i as int, es.len() as int);
            assert(rest[0].1 == view_vvalue(b.values@[i as int].1));
            assert(rest.subrange(1, rest.len() as int) =~= es.subrange(i + 1, es.len() as int));
        }
        match check_value_exec(&b.values[i].1, top) {
            Err(e) => {
                return Err(e);
            },
            Ok(()) => {},
        }
        i = i + 1;
    }
    let ghost ns = view_vblocks(b.nested@);
    let mut k: usize = 0;
    proof {
        assert(es.subrange(i as int, es.len() as int) =~= Seq::<(Seq<char>, SVValue)>::empty());
        assert(check_entries(es, t) == Ok::<(), SError>(()));
        assert(ns.subrange(0, ns.len() as int) =~= ns);
    }
    while k < b.nested.len()
        invariant
            t == view_vblocks(top@),
            ns == view_vblocks(b.nested@),
            ns.len() == b.nested@.len(),
            es == view_ventries(b.values@),
            check_entries(es, t) == Ok::<(), SError>(()),
            k <= b.nested@.len(),
            check_blocks(ns, t) == check_blocks(ns.subrange(k as int, ns.len() as int), t),
        decreases b.nested.len() - k,
    {
        proof {
            assert(decreases_to!(*b => b.nested));
            assert(decreases_to!(b.nested => b.nested@));
            assert(decreases_to!(b.nested@ => b.nested@[k as int]));
            let rest = ns.subrange(k as int, ns.len() as int);
            assert(rest[0] == view_vblock(b.nested@[k as int]));
            assert(rest.subrange(1, rest.len() as int) =~= ns.subrange(k + 1, ns.len() as int));
        }
        match check_block_exec(&b.nested[k], top) {
            Err(e) => {
                return Err(e);
            },
            Ok(()) => {},
        }
        k = k + 1;
    }
    Ok(())
}

/// Resolve `@kind/label` references against top-level block labels; the document is left as it
/// is.
pub fn resolve_references(document: &mut ValidatedDocument) -> (r: Result<(), BsolError>)
    ensures
        *final(document) == *old(document),
        unit_res(r) == references_spec(old(document)@),
{
    let ghost t = view_vblocks(document.blocks@);
    let mut i: usize = 0;
    proof {
        assert(t.subrange(0, t.len() as int) =~= t);
    }
    while i < document.blocks.len()
        invariant
            t == view_vblocks(document.blocks@),
            t.len() == document.blocks@.len(),
            i <= document.blocks@.len(),
            check_blocks(t, t) == check_blocks(t.subrange(i as int, t.len() as int), t),
        decreases document.blocks.len() - i,
    {
        proof {
            let rest = t.subrange(i as int, t.len() as int);
            assert(rest[0] == view_vblock(document.blocks@[i as int]));
            assert(rest.subrange(1, rest.len() as int) =~= t.subrange(i + 1, t.len() as int));
        }
        match check_block_exec(&document.blocks[i], &document.blocks) {
            Err(e) => {
                return Err(e);
            },
            Ok(()) => {},
        }
        i = i + 1;
    }
    Ok(())
}

} // verus!
