//! Generic BSOL abstract syntax tree and its mathematical model.

use vstd::prelude::*;
use vstd::string::{StringExecFns, StringSliceAdditionalSpecFns};

use crate::text::{join2, owned, slice_text, text_of, bnd};

verus! {

broadcast use vstd::utf8::group_utf8_lib;

/// UTF-8 source span with a 1-based line index for diagnostics.
#[derive(Debug, Clone, Copy, PartialEq, Eq, Default, Structural)]
pub struct BsolSpan {
    pub start: usize,
    pub end: usize,
    pub line: usize,
}

/// A parsed BSOL document.
#[derive(Debug, PartialEq, Eq)]
pub struct BsolDocument {
    pub blocks: Vec<BsolBlock>,
}

/// Attribute metadata on blocks or assignments.
#[derive(Debug, PartialEq, Eq)]
pub struct BsolAttribute {
    pub span: BsolSpan,
    pub name: String,
    pub args: Vec<BsolAttributeArg>,
}

/// Named argument inside an attribute: `key = value`.
#[derive(Debug, PartialEq, Eq)]
pub struct BsolAttributeArg {
    pub key: String,
    pub value: BsolValue,
}

/// One block in a BSOL document.
#[derive(Debug, PartialEq, Eq)]
pub struct BsolBlock {
    pub span: BsolSpan,
    pub attrs: Vec<BsolAttribute>,
    pub kind: String,
    pub label: Option<BsolQuotedString>,
    /// When `@schemaless` is present, the inner `{ ... }` text is kept verbatim.
    pub schemaless_body: Option<String>,
    pub items: Vec<BsolItem>,
}

/// Body item: assignment or nested block.
#[derive(Debug, PartialEq, Eq)]
pub enum BsolItem {
    Assignment(BsolAssignment),
    Block(BsolBlock),
}

/// `key = value` assignment.
#[derive(Debug, PartialEq, Eq)]
pub struct BsolAssignment {
    pub span: BsolSpan,
    pub attrs: Vec<BsolAttribute>,
    pub key: String,
    pub value: BsolValue,
}

/// Right-hand side of an assignment.
#[derive(Debug, PartialEq, Eq)]
pub enum BsolValue {
    QuotedString(BsolQuotedString),
    Ident(String),
    Bool(bool),
    BracketList(BsolBracketList),
    InlineMap(BsolInlineMap),
    Ref(BsolRef),
}

/// Cross-block reference: `@kind/label` or `@/label`.
#[derive(Debug, PartialEq, Eq)]
pub struct BsolRef {
    pub span: BsolSpan,
    pub rule_kind: Option<String>,
    pub label: String,
}

/// Inline map `{ key = value, ... }`.
#[derive(Debug, PartialEq, Eq)]
pub struct BsolInlineMap {
    pub span: BsolSpan,
    pub entries: Vec<BsolMapEntry>,
}

/// One entry in an inline map.
#[derive(Debug, PartialEq, Eq)]
pub struct BsolMapEntry {
    pub span: BsolSpan,
    pub key: String,
    pub value: BsolValue,
}

/// Double-quoted string literal.
#[derive(Debug, PartialEq, Eq)]
pub struct BsolQuotedString {
    pub span: BsolSpan,
    pub value: String,
}

/// Bracket list `[a, b, "c"]`.
#[derive(Debug, PartialEq, Eq)]
pub struct BsolBracketList {
    pub span: BsolSpan,
    pub items: Vec<BsolListItem>,
}

/// One element of a bracket list.
#[derive(Debug, PartialEq, Eq)]
pub enum BsolListItem {
    Default,
    QuotedString(BsolQuotedString),
    Ident(String),
    Bool(bool),
    Ref(BsolRef),
    InlineMap(BsolInlineMap),
    InlineBlock(BsolBlock),
}

// ---------------------------------------------------------------------------
// Mathematical model of the tree: the same shape with texts as character sequences.
// ---------------------------------------------------------------------------

pub ghost struct SDocument {
    pub blocks: Seq<SBlock>,
}

pub ghost struct SAttr {
    pub span: BsolSpan,
    pub name: Seq<char>,
    pub args: Seq<SArg>,
}

pub ghost struct SArg {
    pub key: Seq<char>,
    pub value: SValue,
}

pub ghost struct SBlock {
    pub span: BsolSpan,
    pub attrs: Seq<SAttr>,
    pub kind: Seq<char>,
    pub label: Option<SQuoted>,
    pub schemaless_body: Option<Seq<char>>,
    pub items: Seq<SItem>,
}

pub ghost enum SItem {
    Assignment(SAssign),
    Block(SBlock),
}

pub ghost struct SAssign {
    pub span: BsolSpan,
    pub attrs: Seq<SAttr>,
    pub key: Seq<char>,
    pub value: SValue,
}

pub ghost enum SValue {
    QuotedString(SQuoted),
    Ident(Seq<char>),
    Bool(bool),
    BracketList(SList),
    InlineMap(SMap),
    Ref(SRef),
}

pub ghost struct SRef {
    pub span: BsolSpan,
    pub rule_kind: Option<Seq<char>>,
    pub label: Seq<char>,
}

pub ghost struct SMap {
    pub span: BsolSpan,
    pub entries: Seq<SEntry>,
}

pub ghost struct SEntry {
    pub span: BsolSpan,
    pub key: Seq<char>,
    pub value: SValue,
}

pub ghost struct SQuoted {
    pub span: BsolSpan,
    pub value: Seq<char>,
}

pub ghost struct SList {
    pub span: BsolSpan,
    pub items: Seq<SListItem>,
}

pub ghost enum SListItem {
    Default,
    QuotedString(SQuoted),
    Ident(Seq<char>),
    Bool(bool),
    Ref(SRef),
    InlineMap(SMap),
    InlineBlock(SBlock),
}

pub open spec fn opt_text(o: Option<String>) -> Option<Seq<char>> {
    match o {
        Some(s) => Some(s@),
        None => None,
    }
}

pub open spec fn view_quoted(q: BsolQuotedString) -> SQuoted {
    SQuoted { span: q.span, value: q.value@ }
}

pub open spec fn view_opt_quoted(q: Option<BsolQuotedString>) -> Option<SQuoted> {
    match q {
        Some(q) => Some(view_quoted(q)),
        None => None,
    }
}

pub open spec fn view_ref(r: BsolRef) -> SRef {
    SRef { span: r.span, rule_kind: opt_text(r.rule_kind), label: r.label@ }
}

pub open spec fn view_value(v: BsolValue) -> SValue
    decreases v,
{
    match v {
        BsolValue::QuotedString(q) => SValue::QuotedString(view_quoted(q)),
        BsolValue::Ident(i) => SValue::Ident(i@),
        BsolValue::Bool(b) => SValue::Bool(b),
        BsolValue::BracketList(l) => SValue::BracketList(
            SList { span: l.span, items: view_list_items(l.items@) },
        ),
        BsolValue::InlineMap(m) => SValue::InlineMap(view_map(m)),
        BsolValue::Ref(r) => SValue::Ref(view_ref(r)),
    }
}

pub open spec fn view_map(m: BsolInlineMap) -> SMap
    decreases m,
{
    SMap { span: m.span, entries: view_entries(m.entries@) }
}

pub open spec fn view_entries(s: Seq<BsolMapEntry>) -> Seq<SEntry>
    decreases s,
{
    if s.len() == 0 {
        Seq::empty()
    } else {
        seq![view_entry(s[0])] + view_entries(s.subrange(1, s.len() as int))
    }
}

pub open spec fn view_entry(e: BsolMapEntry) -> SEntry
    decreases e,
{
    SEntry { span: e.span, key: e.key@, value: view_value(e.value) }
}

pub open spec fn view_list_items(s: Seq<BsolListItem>) -> Seq<SListItem>
    decreases s,
{
    if s.len() == 0 {
        Seq::empty()
    } else {
        seq![view_list_item(s[0])] + view_list_items(s.subrange(1, s.len() as int))
    }
}

pub open spec fn view_list_item(it: BsolListItem) -> SListItem
    decreases it,
{
    match it {
        BsolListItem::Default => SListItem::Default,
        BsolListItem::QuotedString(q) => SListItem::QuotedString(view_quoted(q)),
        BsolListItem::Ident(i) => SListItem::Ident(i@),
        BsolListItem::Bool(b) => SListItem::Bool(b),
        BsolListItem::Ref(r) => SListItem::Ref(view_ref(r)),
        BsolListItem::InlineMap(m) => SListItem::InlineMap(view_map(m)),
        BsolListItem::InlineBlock(b) => SListItem::InlineBlock(view_block(b)),
    }
}

pub open spec fn view_attrs(s: Seq<BsolAttribute>) -> Seq<SAttr>
    decreases s,
{
    if s.len() == 0 {
        Seq::empty()
    } else {
        seq![view_attr(s[0])] + view_attrs(s.subrange(1, s.len() as int))
    }
}

pub open spec fn view_attr(a: BsolAttribute) -> SAttr
    decreases a,
{
    SAttr { span: a.span, name: a.name@, args: view_args(a.args@) }
}

pub open spec fn view_args(s: Seq<BsolAttributeArg>) -> Seq<SArg>
    decreases s,
{
    if s.len() == 0 {
        Seq::empty()
    } else {
        seq![view_arg(s[0])] + view_args(s.subrange(1, s.len() as int))
    }
}

pub open spec fn view_arg(a: BsolAttributeArg) -> SArg
    decreases a,
{
    SArg { key: a.key@, value: view_value(a.value) }
}

pub open spec fn view_block(b: BsolBlock) -> SBlock
    decreases b,
{
    SBlock {
        span: b.span,
        attrs: view_attrs(b.attrs@),
        kind: b.kind@,
        label: view_opt_quoted(b.label),
        schemaless_body: opt_text(b.schemaless_body),
        items: view_items(b.items@),
    }
}

pub open spec fn view_items(s: Seq<BsolItem>) -> Seq<SItem>
    decreases s,
{
    if s.len() == 0 {
        Seq::empty()
    } else {
        seq![view_item(s[0])] + view_items(s.subrange(1, s.len() as int))
    }
}

pub open spec fn view_item(it: BsolItem) -> SItem
    decreases it,
{
    match it {
        BsolItem::Assignment(a) => SItem::Assignment(view_assign(a)),
        BsolItem::Block(b) => SItem::Block(view_block(b)),
    }
}

pub open spec fn view_assign(a: BsolAssignment) -> SAssign
    decreases a,
{
    SAssign { span: a.span, attrs: view_attrs(a.attrs@), key: a.key@, value: view_value(a.value) }
}

pub open spec fn view_blocks(s: Seq<BsolBlock>) -> Seq<SBlock>
    decreases s,
{
    if s.len() == 0 {
        Seq::empty()
    } else {
        seq![view_block(s[0])] + view_blocks(s.subrange(1, s.len() as int))
    }
}

pub broadcast proof fn lemma_view_entries(s: Seq<BsolMapEntry>)
    ensures
        #[trigger] view_entries(s).len() == s.len(),
        forall|i: int| 0 <= i < s.len() ==> view_entries(s)[i] == view_entry(s[i]),
    decreases s.len(),
{
    if s.len() > 0 {
        lemma_view_entries(s.subrange(1, s.len() as int));
    }
}

pub broadcast proof fn lemma_view_list_items(s: Seq<BsolListItem>)
    ensures
        #[trigger] view_list_items(s).len() == s.len(),
        forall|i: int| 0 <= i < s.len() ==> view_list_items(s)[i] == view_list_item(s[i]),
    decreases s.len(),
{
    if s.len() > 0 {
        lemma_view_list_items(s.subrange(1, s.len() as int));
    }
}

pub broadcast proof fn lemma_view_attrs(s: Seq<BsolAttribute>)
    ensures
        #[trigger] view_attrs(s).len() == s.len(),
        forall|i: int| 0 <= i < s.len() ==> view_attrs(s)[i] == view_attr(s[i]),
    decreases s.len(),
{
    if s.len() > 0 {
        lemma_view_attrs(s.subrange(1, s.len() as int));
    }
}

pub broadcast proof fn lemma_view_args(s: Seq<BsolAttributeArg>)
    ensures
        #[trigger] view_args(s).len() == s.len(),
        forall|i: int| 0 <= i < s.len() ==> view_args(s)[i] == view_arg(s[i]),
    decreases s.len(),
{
    if s.len() > 0 {
        lemma_view_args(s.subrange(1, s.len() as int));
    }
}

pub broadcast proof fn lemma_view_items(s: Seq<BsolItem>)
    ensures
        #[trigger] view_items(s).len() == s.len(),
        forall|i: int| 0 <= i < s.len() ==> view_items(s)[i] == view_item(s[i]),
    decreases s.len(),
{
    if s.len() > 0 {
        lemma_view_items(s.subrange(1, s.len() as int));
    }
}

pub broadcast proof fn lemma_view_blocks(s: Seq<BsolBlock>)
    ensures
        #[trigger] view_blocks(s).len() == s.len(),
        forall|i: int| 0 <= i < s.len() ==> view_blocks(s)[i] == view_block(s[i]),
    decreases s.len(),
{
    if s.len() > 0 {
        lemma_view_blocks(s.subrange(1, s.len() as int));
    }
}

pub proof fn lemma_view_entries_push(s: Seq<BsolMapEntry>, x: BsolMapEntry)
    ensures
        view_entries(s.push(x)) == view_entries(s).push(view_entry(x)),
{
    lemma_view_entries(s.push(x));
    lemma_view_entries(s);
    assert(view_entries(s.push(x)) =~= view_entries(s).push(view_entry(x)));
}

pub proof fn lemma_view_list_items_push(s: Seq<BsolListItem>, x: BsolListItem)
    ensures
        view_list_items(s.push(x)) == view_list_items(s).push(view_list_item(x)),
{
    lemma_view_list_items(s.push(x));
    lemma_view_list_items(s);
    assert(view_list_items(s.push(x)) =~= view_list_items(s).push(view_list_item(x)));
}

pub proof fn lemma_view_attrs_push(s: Seq<BsolAttribute>, x: BsolAttribute)
    ensures
        view_attrs(s.push(x)) == view_attrs(s).push(view_attr(x)),
{
    lemma_view_attrs(s.push(x));
    lemma_view_attrs(s);
    assert(view_attrs(s.push(x)) =~= view_attrs(s).push(view_attr(x)));
}

pub proof fn lemma_view_args_push(s: Seq<BsolAttributeArg>, x: BsolAttributeArg)
    ensures
        view_args(s.push(x)) == view_args(s).push(view_arg(x)),
{
    lemma_view_args(s.push(x));
    lemma_view_args(s);
    assert(view_args(s.push(x)) =~= view_args(s).push(view_arg(x)));
}

pub proof fn lemma_view_items_push(s: Seq<BsolItem>, x: BsolItem)
    ensures
        view_items(s.push(x)) == view_items(s).push(view_item(x)),
{
    lemma_view_items(s.push(x));
    lemma_view_items(s);
    assert(view_items(s.push(x)) =~= view_items(s).push(view_item(x)));
}

pub proof fn lemma_view_blocks_push(s: Seq<BsolBlock>, x: BsolBlock)
    ensures
        view_blocks(s.push(x)) == view_blocks(s).push(view_block(x)),
{
    lemma_view_blocks(s.push(x));
    lemma_view_blocks(s);
    assert(view_blocks(s.push(x)) =~= view_blocks(s).push(view_block(x)));
}

pub broadcast group group_ast_views {
    lemma_view_entries,
    lemma_view_list_items,
    lemma_view_attrs,
    lemma_view_args,
    lemma_view_items,
    lemma_view_blocks,
}

impl View for BsolDocument {
    type V = SDocument;

    open spec fn view(&self) -> SDocument {
        SDocument { blocks: view_blocks(self.blocks@) }
    }
}

impl View for BsolBlock {
    type V = SBlock;

    open spec fn view(&self) -> SBlock {
        view_block(*self)
    }
}

impl View for BsolItem {
    type V = SItem;

    open spec fn view(&self) -> SItem {
        view_item(*self)
    }
}

impl View for BsolAssignment {
    type V = SAssign;

    open spec fn view(&self) -> SAssign {
        view_assign(*self)
    }
}

impl View for BsolAttribute {
    type V = SAttr;

    open spec fn view(&self) -> SAttr {
        view_attr(*self)
    }
}

impl View for BsolValue {
    type V = SValue;

    open spec fn view(&self) -> SValue {
        view_value(*self)
    }
}

impl View for BsolRef {
    type V = SRef;

    open spec fn view(&self) -> SRef {
        view_ref(*self)
    }
}

impl View for BsolQuotedString {
    type V = SQuoted;

    open spec fn view(&self) -> SQuoted {
        view_quoted(*self)
    }
}

impl View for BsolListItem {
    type V = SListItem;

    open spec fn view(&self) -> SListItem {
        view_list_item(*self)
    }
}

impl View for BsolInlineMap {
    type V = SMap;

    open spec fn view(&self) -> SMap {
        view_map(*self)
    }
}

impl View for BsolMapEntry {
    type V = SEntry;

    open spec fn view(&self) -> SEntry {
        view_entry(*self)
    }
}

// ---------------------------------------------------------------------------
// Texts shown for values in diagnostics.
// ---------------------------------------------------------------------------

/// `@kind/label`, or `@/label` for a reference without a rule kind.
pub open spec fn ref_text(r: SRef) -> Seq<char> {
    match r.rule_kind {
        Some(kind) => "@"@ + kind + "/"@ + r.label,
        None => "@/"@ + r.label,
    }
}

/// `true` / `false`.
pub open spec fn bool_text(b: bool) -> Seq<char> {
    if b {
        "true"@
    } else {
        "false"@
    }
}

/// Preview of a value in diagnostics.
pub open spec fn preview_text(v: SValue) -> Seq<char> {
    match v {
        SValue::QuotedString(q) => "\""@ + q.value + "\""@,
        SValue::Ident(i) => i,
        SValue::Bool(b) => bool_text(b),
        SValue::BracketList(_) => "[...]"@,
        SValue::InlineMap(_) => "{...}"@,
        SValue::Ref(r) => ref_text(r),
    }
}

pub fn bool_string(b: bool) -> (r: String)
    ensures
        r@ == bool_text(b),
{
    if b {
        owned("true")
    } else {
        owned("false")
    }
}

impl BsolRef {
    /// `@kind/label`, or `@/label` when the reference names no rule kind.
    pub fn display(&self) -> (r: String)
        ensures
            r@ == ref_text(self@),
    {
        match &self.rule_kind {
            Some(kind) => {
                let a = join2(owned("@"), kind.as_str());
                let b = join2(a, "/");
                join2(b, self.label.as_str())
            },
            None => join2(owned("@/"), self.label.as_str()),
        }
    }
}

impl BsolValue {
    /// String preview for diagnostics.
    pub fn preview(&self) -> (r: String)
        ensures
            r@ == preview_text(self@),
    {
        match self {
            BsolValue::QuotedString(q) => {
                let a = join2(owned("\""), q.value.as_str());
                join2(a, "\"")
            },
            BsolValue::Ident(i) => i.clone(),
            BsolValue::Bool(b) => bool_string(*b),
            BsolValue::BracketList(_) => owned("[...]"),
            BsolValue::InlineMap(_) => owned("{...}"),
            BsolValue::Ref(r) => r.display(),
        }
    }
}

/// The text of a quoted-string literal without its surrounding quotes; text that does not both
/// start and end with `"` is kept as it is.
pub open spec fn unquoted(raw: &str) -> Seq<char> {
    let b = raw.spec_bytes();
    if b.len() >= 2 && b[0] == 0x22u8 && b[b.len() - 1] == 0x22u8 {
        text_of(b, 1, b.len() - 1)
    } else {
        raw@
    }
}

impl BsolQuotedString {
    pub fn new(span: BsolSpan, raw: &str) -> (r: Self)
        ensures
            r.span == span,
            r.value@ == unquoted(raw),
    {
        let b = raw.as_bytes();
        let n = b.len();
        if n >= 2 && b[0] == 0x22u8 && b[n - 1] == 0x22u8 {
            proof {
                crate::text::lemma_bnd_after_ascii(b@, 0);
                assert(bnd(b@, (n - 1) as int));
            }
            BsolQuotedString { span, value: slice_text(raw, 1, n - 1) }
        } else {
            BsolQuotedString { span, value: owned(raw) }
        }
    }
}

} // verus!
