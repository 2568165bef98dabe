//! Documents validated against a schema profile, and their typed field values.
//!
//! Floating-point field values are kept as the validated literal text.

use vstd::prelude::*;

use crate::ast::{
    bool_string, bool_text, ref_text, view_attrs, view_items, view_ref, BsolAttribute, BsolBlock,
    BsolItem, BsolRef, BsolSpan, SAttr, SBlock, SItem, SRef, SValue,
};
use crate::profile_spec::{upsert, vget, vkey_index};
use crate::schema::{find_key, key_index, lemma_key_index};
use crate::schema_view::{opt_text, text_pairs, texts};
use crate::text::{decimal, decimal_text, join2, owned};

verus! {

/// Typed field value after schema validation.
#[derive(Debug, PartialEq, Eq)]
pub enum ValidatedValue {
    String(String),
    U32(u32),
    I64(i64),
    /// A floating-point literal, as written (it reads as an `f64`).
    F64(String),
    Bool(bool),
    List(Vec<ValidatedValue>),
    Dict(Vec<(String, ValidatedValue)>),
    Ref(BsolRef),
    Block(Box<ValidatedBlockLite>),
}

/// Lightweight inline block validation result.
#[derive(Debug, PartialEq, Eq)]
pub struct ValidatedBlockLite {
    pub kind: String,
    pub label: Option<String>,
    pub values: Vec<(String, ValidatedValue)>,
}

/// Document validated against a schema profile; blocks carry matched rule ids.
#[derive(Debug, PartialEq, Eq)]
pub struct ValidatedDocument {
    pub profile: String,
    pub blocks: Vec<ValidatedBlock>,
}

/// A block validated against its rule.
#[derive(Debug, PartialEq, Eq)]
pub struct ValidatedBlock {
    pub span: BsolSpan,
    pub rule_id: String,
    pub kind: String,
    pub label: Option<String>,
    pub attrs: Vec<BsolAttribute>,
    pub fields: Vec<(String, String)>,
    pub values: Vec<(String, ValidatedValue)>,
    pub field_spans: Vec<(String, BsolSpan)>,
    pub extras: Vec<(String, String)>,
    pub nested: Vec<ValidatedBlock>,
    pub lists: Vec<(String, Vec<String>)>,
    pub raw_body: Option<String>,
}

pub ghost enum SVValue {
    String(Seq<char>),
    U32(u32),
    I64(i64),
    F64(Seq<char>),
    Bool(bool),
    List(Seq<SVValue>),
    Dict(Seq<(Seq<char>, SVValue)>),
    Ref(SRef),
    Block(Seq<char>, Option<Seq<char>>, Seq<(Seq<char>, SVValue)>),
}

pub ghost struct SVBlock {
    pub span: BsolSpan,
    pub rule_id: Seq<char>,
    pub kind: Seq<char>,
    pub label: Option<Seq<char>>,
    pub attrs: Seq<SAttr>,
    pub fields: Seq<(Seq<char>, Seq<char>)>,
    pub values: Seq<(Seq<char>, SVValue)>,
    pub field_spans: Seq<(Seq<char>, BsolSpan)>,
    pub extras: Seq<(Seq<char>, Seq<char>)>,
    pub nested: Seq<SVBlock>,
    pub lists: Seq<(Seq<char>, Seq<Seq<char>>)>,
    pub raw_body: Option<Seq<char>>,
}

pub ghost struct SVDoc {
    pub profile: Seq<char>,
    pub blocks: Seq<SVBlock>,
}

pub open spec fn view_vvalue(v: ValidatedValue) -> SVValue
    decreases v,
{
    match v {
        ValidatedValue::String(s) => SVValue::String(s@),
        ValidatedValue::U32(n) => SVValue::U32(n),
        ValidatedValue::I64(n) => SVValue::I64(n),
        ValidatedValue::F64(s) => SVValue::F64(s@),
        ValidatedValue::Bool(b) => SVValue::Bool(b),
        ValidatedValue::List(items) => SVValue::List(view_vvalues(items@)),
        ValidatedValue::Dict(entries) => SVValue::Dict(view_ventries(entries@)),
        ValidatedValue::Ref(r) => SVValue::Ref(view_ref(r)),
        ValidatedValue::Block(b) => SVValue::Block(b.kind@, opt_text(b.label), view_ventries(b.values@)),
    }
}

pub open spec fn view_vvalues(s: Seq<ValidatedValue>) -> Seq<SVValue>
    decreases s,
{
    if s.len() == 0 {
        Seq::empty()
    } else {
        seq![view_vvalue(s[0])] + view_vvalues(s.subrange(1, s.len() as int))
    }
}

pub open spec fn view_ventries(s: Seq<(String, ValidatedValue)>) -> Seq<(Seq<char>, SVValue)>
    decreases s,
{
    if s.len() == 0 {
        Seq::empty()
    } else {
        seq![(s[0].0@, view_vvalue(s[0].1))] + view_ventries(s.subrange(1, s.len() as int))
    }
}

pub open spec fn span_pairs(s: Seq<(String, BsolSpan)>) -> Seq<(Seq<char>, BsolSpan)> {
    s.map_values(|p: (String, BsolSpan)| (p.0@, p.1))
}

pub open spec fn list_pairs(s: Seq<(String, Vec<String>)>) -> Seq<(Seq<char>, Seq<Seq<char>>)> {
    s.map_values(|p: (String, Vec<String>)| (p.0@, texts(p.1@)))
}

pub open spec fn view_vblock(b: ValidatedBlock) -> SVBlock
    decreases b,
{
    SVBlock {
        span: b.span,
        rule_id: b.rule_id@,
        kind: b.kind@,
        label: opt_text(b.label),
        attrs: view_attrs(b.attrs@),
        fields: text_pairs(b.fields@),
        values: view_ventries(b.values@),
        field_spans: span_pairs(b.field_spans@),
        extras: text_pairs(b.extras@),
        nested: view_vblocks(b.nested@),
        lists: list_pairs(b.lists@),
        raw_body: opt_text(b.raw_body),
    }
}

pub open spec fn view_vblocks(s: Seq<ValidatedBlock>) -> Seq<SVBlock>
    decreases s,
{
    if s.len() == 0 {
        Seq::empty()
    } else {
        seq![view_vblock(s[0])] + view_vblocks(s.subrange(1, s.len() as int))
    }
}

pub broadcast proof fn lemma_view_vvalues(s: Seq<ValidatedValue>)
    ensures
        #[trigger] view_vvalues(s).len() == s.len(),
        forall|i: int| 0 <= i < s.len() ==> #[trigger] view_vvalues(s)[i] == view_vvalue(s[i]),
    decreases s.len(),
{
    if s.len() > 0 {
        lemma_view_vvalues(s.subrange(1, s.len() as int));
        assert forall|i: int| 0 <= i < s.len() implies #[trigger] view_vvalues(s)[i] == view_vvalue(s[i]) by {
            if i > 0 {
                assert(s.subrange(1, s.len() as int)[i - 1] == s[i]);
            }
        }
    }
}

pub broadcast proof fn lemma_view_ventries(s: Seq<(String, ValidatedValue)>)
    ensures
        #[trigger] view_ventries(s).len() == s.len(),
        forall|i: int| 0 <= i < s.len() ==> #[trigger] view_ventries(s)[i] == (s[i].0@, view_vvalue(s[i].1)),
    decreases s.len(),
{
    if s.len() > 0 {
        lemma_view_ventries(s.subrange(1, s.len() as int));
        assert forall|i: int| 0 <= i < s.len() implies #[trigger] view_ventries(s)[i] == (s[i].0@, view_vvalue(s[i].1)) by {
            if i > 0 {
                assert(s.subrange(1, s.len() as int)[i - 1] == s[i]);
            }
        }
    }
}

pub broadcast proof fn lemma_view_vblocks(s: Seq<ValidatedBlock>)
    ensures
        #[trigger] view_vblocks(s).len() == s.len(),
        forall|i: int| 0 <= i < s.len() ==> #[trigger] view_vblocks(s)[i] == view_vblock(s[i]),
    decreases s.len(),
{
    if s.len() > 0 {
        lemma_view_vblocks(s.subrange(1, s.len() as int));
        assert forall|i: int| 0 <= i < s.len() implies #[trigger] view_vblocks(s)[i] == view_vblock(s[i]) by {
            if i > 0 {
                assert(s.subrange(1, s.len() as int)[i - 1] == s[i]);
            }
        }
    }
}

pub broadcast group group_validated_views {
    lemma_view_vvalues,
    lemma_view_ventries,
    lemma_view_vblocks,
}

impl View for ValidatedValue {
    type V = SVValue;

    open spec fn view(&self) -> SVValue {
        view_vvalue(*self)
    }
}

impl View for ValidatedBlock {
    type V = SVBlock;

    open spec fn view(&self) -> SVBlock {
        view_vblock(*self)
    }
}

impl View for ValidatedDocument {
    type V = SVDoc;

    open spec fn view(&self) -> SVDoc {
        SVDoc { profile: self.profile@, blocks: view_vblocks(self.blocks@) }
    }
}

/// Decimal text of a signed integer, as `i64`'s `Display` writes it.
pub open spec fn signed_decimal(n: int) -> Seq<char> {
    if n < 0 {
        "-"@ + decimal((-n) as nat)
    } else {
        decimal(n as nat)
    }
}

pub fn i64_text(n: i64) -> (r: String)
    ensures
        r@ == signed_decimal(n as int),
{
    if n < 0 {
        let m: u64 = if n == i64::MIN { 9223372036854775808u64 } else { (-n) as u64 };
        join2(owned("-"), u64_text(m).as_str())
    } else {
        u64_text(n as u64)
    }
}

fn u64_text(n: u64) -> (r: String)
    ensures
        r@ == decimal(n as nat),
    decreases n,
{
    if n < 10 {
        decimal_text(n as usize)
    } else {
        let head = u64_text(n / 10);
        let d = decimal_text((n % 10) as usize);
        proof {
            assert(decimal((n % 10) as nat) == seq![crate::text::digit_char((n % 10) as nat)]);
        }
        join2(head, d.as_str())
    }
}

/// The text form of a scalar value: strings as they are, numbers in decimal, booleans and
/// references as written; other values have none.
pub open spec fn value_string(v: SVValue) -> Option<Seq<char>> {
    match v {
        SVValue::String(s) => Some(s),
        SVValue::U32(n) => Some(decimal(n as nat)),
        SVValue::I64(n) => Some(signed_decimal(n as int)),
        SVValue::Bool(b) => Some(bool_text(b)),
        SVValue::Ref(r) => Some(ref_text(r)),
        _ => None,
    }
}

/// The text forms of the scalar items of a list (other items are skipped).
pub open spec fn list_strings(items: Seq<SVValue>) -> Seq<Seq<char>>
    decreases items.len(),
{
    if items.len() == 0 {
        Seq::empty()
    } else {
        let rest = list_strings(items.drop_first());
        match value_string(items[0]) {
            Some(s) => seq![s] + rest,
            None => rest,
        }
    }
}

impl ValidatedValue {
    /// The string of a `String` value.
    pub fn as_str(&self) -> (r: Option<&str>)
        ensures
            match self@ {
                SVValue::String(s) => r matches Some(x) && x@ == s,
                _ => r is None,
            },
    {
        match self {
            ValidatedValue::String(s) => Some(s.as_str()),
            _ => None,
        }
    }

    /// The text form of a scalar value.
    pub fn as_string(&self) -> (r: Option<String>)
        ensures
            match r {
                Some(s) => value_string(self@) == Some(s@),
                None => value_string(self@) is None,
            },
    {
        match self {
            ValidatedValue::String(s) => Some(s.clone()),
            ValidatedValue::U32(v) => Some(u64_text(*v as u64)),
            ValidatedValue::I64(v) => Some(i64_text(*v)),
            ValidatedValue::Bool(v) => Some(bool_string(*v)),
            ValidatedValue::Ref(r) => Some(r.display()),
            _ => None,
        }
    }

    /// The items of a list value.
    pub fn as_list(&self) -> (r: Option<&Vec<ValidatedValue>>)
        ensures
            match *self {
                ValidatedValue::List(items) => r == Some(&items),
                _ => r is None,
            },
    {
        match self {
            ValidatedValue::List(items) => Some(items),
            _ => None,
        }
    }

    /// The text forms of the scalar items of a list value.
    pub fn as_list_strings(&self) -> (r: Option<Vec<String>>)
        ensures
            match self@ {
                SVValue::List(items) => r matches Some(v) && texts(v@) == list_strings(items),
                _ => r is None,
            },
    {
        broadcast use group_validated_views;

        match self {
            ValidatedValue::List(items) => {
                let ghost vs = view_vvalues(items@);
                let mut out: Vec<String> = Vec::new();
                proof {
                    lemma_view_vvalues(items@);
                    assert(vs.subrange(0, vs.len() as int) =~= vs);
                    assert(texts(out@) =~= Seq::<Seq<char>>::empty());
                }
                let mut j: usize = 0;
                while j < items.len()
                    invariant
                        vs == view_vvalues(items@),
                        vs.len() == items@.len(),
                        forall|q: int| 0 <= q < items@.len() ==> #[trigger] vs[q] == view_vvalue(items@[q]),
                        j <= vs.len(),
                        list_strings(vs) == texts(out@) + list_strings(vs.subrange(j as int, vs.len() as int)),
                    decreases items.len() - j,
                {
                    let ghost rest = vs.subrange(j as int, vs.len() as int);
                    proof {
                        assert(rest[0] == vs[j as int]);
                        assert(rest.drop_first() =~= vs.subrange(j + 1, vs.len() as int));
                    }
                    let ghost r0 = out@;
                    match items[j].as_string() {
                        Some(s) => {
                            out.push(s);
                            proof {
                                assert(texts(out@) =~= texts(r0).push(s@));
                                assert(texts(r0) + (seq![s@] + list_strings(vs.subrange(j + 1, vs.len() as int)))
                                    =~= texts(out@) + list_strings(vs.subrange(j + 1, vs.len() as int)));
                            }
                        },
                        None => {},
                    }
                    j = j + 1;
                }
                proof {
                    assert(vs.subrange(j as int, vs.len() as int) =~= Seq::<SVValue>::empty());
                    assert(texts(out@) + Seq::<Seq<char>>::empty() =~= texts(out@));
                }
                Some(out)
            },
            _ => None,
        }
    }
}

impl ValidatedBlock {
    /// The text of field `key`.
    pub fn field(&self, key: &str) -> (r: Option<&str>)
        ensures
            match r {
                Some(x) => key_index(self.fields@, key@) >= 0 && x@ == self.fields@[key_index(self.fields@, key@)].1@,
                None => key_index(self.fields@, key@) == -1,
            },
    {
        proof {
            lemma_key_index(self.fields@, key@);
        }
        match find_key(&self.fields, key) {
            Some(i) => Some(self.fields[i].1.as_str()),
            None => None,
        }
    }

    /// The typed value of field `key`.
    pub fn value(&self, key: &str) -> (r: Option<&ValidatedValue>)
        ensures
            match r {
                Some(x) => key_index(self.values@, key@) >= 0 && *x == self.values@[key_index(self.values@, key@)].1,
                None => key_index(self.values@, key@) == -1,
            },
    {
        proof {
            lemma_key_index(self.values@, key@);
        }
        match find_key(&self.values, key) {
            Some(i) => Some(&self.values[i].1),
            None => None,
        }
    }
}

} // verus!
