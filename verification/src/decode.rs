//! Reading the assignments of profile document blocks.

use vstd::prelude::*;

use crate::ast::{
    bool_string, view_items, view_list_items, BsolBlock, BsolItem, BsolListItem, BsolValue,
    SItem, SListItem,
};
use crate::error::{BsolError, SError};
use crate::profile_spec::{
    assign_list, assign_pairs, assign_string, first_assign, first_block, flag, flag_or_false,
    if_map, label_or, label_text, list_item_text, list_or_empty, list_texts, upsert, value_list,
    value_text, vkey_index,
};
use crate::schema::{find_key, key_index, lemma_key_index};
use crate::schema_view::{text_pairs, texts};
use crate::text::{owned, string_is};

verus! {

broadcast use crate::ast::group_ast_views;

pub open spec fn text_res(r: Result<String, BsolError>) -> Result<Seq<char>, SError> {
    match r {
        Ok(s) => Ok(s@),
        Err(e) => Err(e@),
    }
}

pub open spec fn opt_text_res(r: Result<Option<String>, BsolError>) -> Result<Option<Seq<char>>, SError> {
    match r {
        Ok(Some(s)) => Ok(Some(s@)),
        Ok(None) => Ok(None),
        Err(e) => Err(e@),
    }
}

pub open spec fn texts_res(r: Result<Vec<String>, BsolError>) -> Result<Seq<Seq<char>>, SError> {
    match r {
        Ok(v) => Ok(texts(v@)),
        Err(e) => Err(e@),
    }
}

pub open spec fn pairs_res(r: Result<Vec<(String, String)>, BsolError>) -> Result<Seq<(Seq<char>, Seq<char>)>, SError> {
    match r {
        Ok(v) => Ok(text_pairs(v@)),
        Err(e) => Err(e@),
    }
}

/// `key_index` on a list agrees with `vkey_index` on a list with the same keys.
pub proof fn lemma_key_index_views<V, W>(s: Seq<(String, V)>, t: Seq<(Seq<char>, W)>, k: Seq<char>)
    requires
        s.len() == t.len(),
        forall|i: int| 0 <= i < s.len() ==> #[trigger] s[i].0@ == t[i].0,
    ensures
        key_index(s, k) == vkey_index(t, k),
    decreases s.len(),
{
    if s.len() > 0 {
        assert(s[0].0@ == t[0].0);
        lemma_key_index_views(s.drop_first(), t.drop_first(), k);
    }
}

/// Map insertion into a keyed list: a new key is appended, an existing one replaced in place.
pub fn upsert_entry<V>(s: &mut Vec<(String, V)>, k: String, v: V)
    ensures
        key_index(old(s)@, k@) < 0 ==> final(s)@ == old(s)@.push((k, v)),
        key_index(old(s)@, k@) >= 0 ==> final(s)@ == old(s)@.update(key_index(old(s)@, k@), (k, v)),
{
    proof {
        lemma_key_index(old(s)@, k@);
    }
    match find_key(s, k.as_str()) {
        Some(i) => {
            s.set(i, (k, v));
        },
        None => {
            s.push((k, v));
        },
    }
}

/// Insertion of a text pair, as the model's `upsert`.
pub fn upsert_pair(s: &mut Vec<(String, String)>, k: String, v: String)
    ensures
        text_pairs(final(s)@) == upsert(text_pairs(old(s)@), k@, v@),
{
    let ghost s0 = s@;
    let ghost t0 = text_pairs(s0);
    proof {
        assert forall|i: int| 0 <= i < s0.len() implies #[trigger] s0[i].0@ == t0[i].0 by {}
        lemma_key_index_views(s0, t0, k@);
    }
    let ghost kk = k@;
    let ghost vv = v@;
    upsert_entry(s, k, v);
    proof {
        let i = key_index(s0, kk);
        lemma_key_index(s0, kk);
        if i < 0 {
            assert(text_pairs(s@) =~= t0.push((kk, vv)));
        } else {
            assert(text_pairs(s@) =~= t0.update(i, (kk, vv)));
        }
    }
}

/// A scalar value as text.
pub fn value_as_string(v: &BsolValue) -> (r: Result<String, BsolError>)
    ensures
        text_res(r) == value_text(v@),
{
    match v {
        BsolValue::QuotedString(q) => Ok(q.value.clone()),
        BsolValue::Ident(i) => Ok(i.clone()),
        BsolValue::Bool(b) => Ok(bool_string(*b)),
        BsolValue::Ref(r) => Ok(r.display()),
        _ => Err(BsolError::Schema(owned("expected string, found structured value"))),
    }
}

/// A flat list item as text.
pub fn list_item_string(it: &BsolListItem) -> (r: Result<String, BsolError>)
    ensures
        text_res(r) == list_item_text(it@),
{
    match it {
        BsolListItem::Default => Ok(owned("default")),
        BsolListItem::QuotedString(q) => Ok(q.value.clone()),
        BsolListItem::Ident(i) => Ok(i.clone()),
        BsolListItem::Bool(b) => Ok(bool_string(*b)),
        BsolListItem::Ref(r) => Ok(r.display()),
        _ => Err(BsolError::Schema(owned("expected flat list item, found structured value"))),
    }
}

pub open spec fn prepend_texts(v: Seq<Seq<char>>, r: Result<Seq<Seq<char>>, SError>) -> Result<Seq<Seq<char>>, SError> {
    match r {
        Ok(rest) => Ok(v + rest),
        Err(e) => Err(e),
    }
}

/// A bracket list of flat items as texts.
pub fn value_as_list(v: &BsolValue) -> (r: Result<Vec<String>, BsolError>)
    ensures
        texts_res(r) == value_list(v@),
{
    match v {
        BsolValue::BracketList(list) => {
            let ghost vs = view_list_items(list.items@);
            let mut out: Vec<String> = Vec::new();
            let mut i: usize = 0;
            proof {
                assert(vs.subrange(0, vs.len() as int) =~= vs);
                assert(texts(out@) =~= Seq::<Seq<char>>::empty());
                match list_texts(vs) {
                    Ok(r2) => {
                        assert(Seq::<Seq<char>>::empty() + r2 =~= r2);
                    },
                    Err(_) => {},
                }
            }
            while i < list.items.len()
                invariant
                    vs == view_list_items(list.items@),
                    value_list(v@) == list_texts(vs),
                    i <= vs.len(),
                    list_texts(vs) == prepend_texts(texts(out@), list_texts(vs.subrange(i as int, vs.len() as int))),
                decreases list.items.len() - i,
            {
                let ghost rest = vs.subrange(i as int, vs.len() as int);
                let ghost out0 = out@;
                proof {
                    assert(rest[0] == vs[i as int]);
                    assert(rest.drop_first() =~= vs.subrange(i + 1, vs.len() as int));
                }
                match list_item_string(&list.items[i]) {
                    Err(e) => {
                        return Err(e);
                    },
                    Ok(t) => {
                        out.push(t);
                        proof {
                            assert(texts(out@) =~= texts(out0).push(t@));
                            match list_texts(vs.subrange(i + 1, vs.len() as int)) {
                                Ok(r2) => {
                                    assert(texts(out0) + (seq![t@] + r2) =~= texts(out@) + r2);
                                },
                                Err(_) => {},
                            }
                        }
                    },
                }
                i = i + 1;
            }
            proof {
                assert(vs.subrange(i as int, vs.len() as int) =~= Seq::<SListItem>::empty());
                assert(texts(out@) + Seq::<Seq<char>>::empty() =~= texts(out@));
            }
            Ok(out)
        },
        _ => Err(BsolError::Schema(owned("expected list"))),
    }
}

/// Position of the first assignment keyed `key` among `items`.
pub fn find_assign(items: &Vec<BsolItem>, key: &str) -> (r: Option<usize>)
    ensures
        match r {
            Some(i) => i < items@.len() && (items@[i as int] matches BsolItem::Assignment(a)
                && first_assign(view_items(items@), key@) == Some(a@)),
            None => first_assign(view_items(items@), key@) is None,
        },
{
    let ghost vs = view_items(items@);
    let mut i: usize = 0;
    proof {
        assert(vs.subrange(0, vs.len() as int) =~= vs);
    }
    while i < items.len()
        invariant
            vs == view_items(items@),
            i <= vs.len(),
            first_assign(vs, key@) == first_assign(vs.subrange(i as int, vs.len() as int), key@),
        decreases items.len() - i,
    {
        let ghost rest = vs.subrange(i as int, vs.len() as int);
        proof {
            assert(rest[0] == vs[i as int]);
            assert(rest.drop_first() =~= vs.subrange(i + 1, vs.len() as int));
        }
        match &items[i] {
            BsolItem::Assignment(a) => {
                if string_is(&a.key, key) {
                    return Some(i);
                }
            },
            _ => {},
        }
        i = i + 1;
    }
    None
}

/// Position of the first nested block of kind `kind` among `items`.
pub fn find_block(items: &Vec<BsolItem>, kind: &str) -> (r: Option<usize>)
    ensures
        match r {
            Some(i) => i < items@.len() && (items@[i as int] matches BsolItem::Block(b)
                && first_block(view_items(items@), kind@) == Some(b@)),
            None => first_block(view_items(items@), kind@) is None,
        },
{
    let ghost vs = view_items(items@);
    let mut i: usize = 0;
    proof {
        assert(vs.subrange(0, vs.len() as int) =~= vs);
    }
    while i < items.len()
        invariant
            vs == view_items(items@),
            i <= vs.len(),
            first_block(vs, kind@) == first_block(vs.subrange(i as int, vs.len() as int), kind@),
        decreases items.len() - i,
    {
        let ghost rest = vs.subrange(i as int, vs.len() as int);
        proof {
            assert(rest[0] == vs[i as int]);
            assert(rest.drop_first() =~= vs.subrange(i + 1, vs.len() as int));
        }
        match &items[i] {
            BsolItem::Block(b) => {
                if string_is(&b.kind, kind) {
                    return Some(i);
                }
            },
            _ => {},
        }
        i = i + 1;
    }
    None
}

/// The text of the assignment `key`, if the block has one.
pub fn assignment_string(b: &BsolBlock, key: &str) -> (r: Result<Option<String>, BsolError>)
    ensures
        opt_text_res(r) == assign_string(b@, key@),
{
    match find_assign(&b.items, key) {
        None => Ok(None),
        Some(i) => match &b.items[i] {
            BsolItem::Assignment(a) => match value_as_string(&a.value) {
                Ok(t) => Ok(Some(t)),
                Err(e) => Err(e),
            },
            _ => Ok(None),
        },
    }
}

/// The list of the assignment `key`; empty when the block has none.
pub fn assignment_list(b: &BsolBlock, key: &str) -> (r: Result<Vec<String>, BsolError>)
    ensures
        texts_res(r) == assign_list(b@, key@),
{
    match find_assign(&b.items, key) {
        None => {
            proof {
                assert(texts(Seq::<String>::empty()) =~= Seq::<Seq<char>>::empty());
            }
            Ok(Vec::new())
        },
        Some(i) => match &b.items[i] {
            BsolItem::Assignment(a) => value_as_list(&a.value),
            _ => Ok(Vec::new()),
        },
    }
}

/// The list of the assignment `key`, or empty when it is missing or malformed.
pub fn list_or_default(b: &BsolBlock, key: &str) -> (r: Vec<String>)
    ensures
        texts(r@) == list_or_empty(b@, key@),
{
    match assignment_list(b, key) {
        Ok(v) => v,
        Err(_) => {
            proof {
                assert(texts(Seq::<String>::empty()) =~= Seq::<Seq<char>>::empty());
            }
            Vec::new()
        },
    }
}

/// A boolean flag: `true` exactly when the assignment's text is `true`.
pub fn parse_bool(b: &BsolBlock, key: &str) -> (r: Option<bool>)
    ensures
        r == flag(b@, key@),
{
    match assignment_string(b, key) {
        Ok(Some(v)) => Some(string_is(&v, "true")),
        _ => None,
    }
}

/// A flag that defaults to `false`.
pub fn flag_value(b: &BsolBlock, key: &str) -> (r: bool)
    ensures
        r == flag_or_false(b@, key@),
{
    match parse_bool(b, key) {
        Some(x) => x,
        None => false,
    }
}

/// The block's label text.
pub fn label_string(b: &BsolBlock) -> (r: Option<String>)
    ensures
        match r {
            Some(s) => label_text(b@) == Some(s@),
            None => label_text(b@) is None,
        },
{
    match &b.label {
        Some(q) => Some(q.value.clone()),
        None => None,
    }
}

/// The label, or else the text of the assignment `key` when it reads.
pub fn label_or_assignment(b: &BsolBlock, key: &str) -> (r: Option<String>)
    ensures
        match r {
            Some(s) => label_or(b@, key@) == Some(s@),
            None => label_or(b@, key@) is None,
        },
{
    match label_string(b) {
        Some(v) => Some(v),
        None => match assignment_string(b, key) {
            Ok(Some(v)) => Some(v),
            _ => None,
        },
    }
}

/// Key/value texts of the assignments among `items`, inserted as into a map.
pub fn assignment_pairs(items: &Vec<BsolItem>, acc: Vec<(String, String)>) -> (r: Result<Vec<(String, String)>, BsolError>)
    ensures
        pairs_res(r) == assign_pairs(view_items(items@), text_pairs(acc@)),
{
    let ghost vs = view_items(items@);
    let mut out = acc;
    let mut i: usize = 0;
    proof {
        assert(vs.subrange(0, vs.len() as int) =~= vs);
    }
    while i < items.len()
        invariant
            vs == view_items(items@),
            i <= vs.len(),
            assign_pairs(vs, text_pairs(acc@)) == assign_pairs(vs.subrange(i as int, vs.len() as int), text_pairs(out@)),
        decreases items.len() - i,
    {
        let ghost rest = vs.subrange(i as int, vs.len() as int);
        proof {
            assert(rest[0] == vs[i as int]);
            assert(rest.drop_first() =~= vs.subrange(i + 1, vs.len() as int));
        }
        match &items[i] {
            BsolItem::Assignment(a) => {
                match value_as_string(&a.value) {
                    Err(e) => {
                        return Err(e);
                    },
                    Ok(v) => {
                        upsert_pair(&mut out, a.key.clone(), v);
                    },
                }
            },
            _ => {},
        }
        i = i + 1;
    }
    proof {
        assert(vs.subrange(i as int, vs.len() as int) =~= Seq::<SItem>::empty());
    }
    Ok(out)
}

/// The conditions of the nested block `key` (such as `required_if`).
pub fn parse_if_map(b: &BsolBlock, key: &str) -> (r: Result<Vec<(String, String)>, BsolError>)
    ensures
        pairs_res(r) == if_map(b@, key@),
{
    proof {
        assert(text_pairs(Seq::<(String, String)>::empty()) =~= Seq::<(Seq<char>, Seq<char>)>::empty());
    }
    match find_block(&b.items, key) {
        None => Ok(Vec::new()),
        Some(i) => match &b.items[i] {
            BsolItem::Block(nb) => assignment_pairs(&nb.items, Vec::new()),
            _ => Ok(Vec::new()),
        },
    }
}

} // verus!
