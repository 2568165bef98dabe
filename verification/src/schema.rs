//! Schema profile model: the rules a BSOL document is validated against.
//!
//! Keyed collections are association lists in insertion order; the loader and the composer
//! keep their keys distinct.

use vstd::prelude::*;

use crate::ast::BsolSpan;

verus! {

/// Loaded schema profile (for example `project.v1`).
#[derive(Debug, PartialEq, Eq)]
pub struct SchemaProfile {
    pub name: String,
    pub version: u32,
    pub rules: Vec<(String, BlockRule)>,
    pub top_level_order: Vec<String>,
    pub imports: Vec<ImportSchemaSpec>,
    pub extends: Vec<ExtendSpec>,
    pub migrations: Vec<MigrationSpec>,
}

/// Profile extension overlay.
#[derive(Debug, PartialEq, Eq)]
pub struct ExtendSpec {
    pub base: String,
    pub rules: Vec<(String, BlockRule)>,
    pub span: BsolSpan,
}

/// Author-defined migration route between profiles.
#[derive(Debug, PartialEq, Eq)]
pub struct MigrationSpec {
    pub from: String,
    pub detect: Vec<(String, String)>,
    pub when_clauses: Vec<MigrationWhenClause>,
    pub rewrites: Vec<MigrationRewrite>,
    pub span: BsolSpan,
}

/// Condition under which a migration route applies to a document.
#[derive(Debug, PartialEq, Eq)]
pub struct MigrationWhenClause {
    pub block_kind: Option<String>,
    pub field: Option<String>,
    pub field_value: Option<String>,
    pub missing_field: Option<String>,
}

/// One text rewrite of a migration route.
#[derive(Debug, PartialEq, Eq)]
pub enum MigrationRewrite {
    AddField { key: String, value: String },
    RenameField { from: String, to: String },
    ReplaceValue { from: String, to: String },
}

/// Declarative schema import inside a profile document.
#[derive(Debug, PartialEq, Eq)]
pub struct ImportSchemaSpec {
    pub name: String,
    pub alias: Option<String>,
    pub from: ImportSource,
    pub span: BsolSpan,
}

/// Where an imported schema profile is resolved from.
#[derive(Debug, PartialEq, Eq)]
pub enum ImportSource {
    File { path: String },
    Git { url: String, rev: String, path: String },
    Registry { package: String, version: String, path: String },
    /// Shorthand `@pckg/package/path` form.
    PckgShorthand { reference: String },
}

/// Rule for matching and validating a block kind.
#[derive(Debug, PartialEq, Eq)]
pub struct BlockRule {
    pub id: String,
    pub scope: RuleScope,
    pub kind_match: KindMatch,
    pub label: LabelRequirement,
    pub cardinality: Cardinality,
    pub fields: Vec<(String, FieldRule)>,
    pub nested: Vec<(String, BlockRule)>,
    pub nested_order: Vec<String>,
    pub allow_extra_fields: bool,
    pub allow_extra_nested: bool,
    pub schemaless: bool,
    pub extends: Option<String>,
    pub mixes: Vec<String>,
    pub variants: Vec<VariantRule>,
    pub allowed_attrs: Vec<String>,
}

/// Discriminated union variant keyed by discriminator field value.
#[derive(Debug, PartialEq, Eq)]
pub struct VariantRule {
    pub name: String,
    pub require: Vec<String>,
    pub forbid: Vec<String>,
}

/// Where a rule may match: at top level, nested, or both.
#[derive(Debug, Clone, Copy, PartialEq, Eq, Structural)]
pub enum RuleScope {
    TopLevel,
    Nested,
    Any,
}

/// How a rule recognises block kinds.
#[derive(Debug, PartialEq, Eq)]
pub enum KindMatch {
    Keyword(String),
    FreeIdent { except: Vec<String> },
    Keywords(Vec<String>),
}

/// Whether a block must, may, or must not carry a label.
#[derive(Debug, Clone, Copy, PartialEq, Eq, Structural)]
pub enum LabelRequirement {
    Optional,
    Required,
    Forbidden,
}

/// How many blocks of a rule may appear.
#[derive(Debug, Clone, Copy, PartialEq, Eq, Structural)]
pub enum Cardinality {
    Many,
    One,
    ZeroOrOne,
}

/// Value constraints of a field.
#[derive(Debug, PartialEq, Eq)]
pub struct FieldConstraints {
    pub default_value: Option<String>,
    pub min: Option<i64>,
    pub max: Option<i64>,
    pub pattern: Option<String>,
    pub required_if: Vec<(String, String)>,
    pub forbid_if: Vec<(String, String)>,
}

/// Contract of one field of a block.
#[derive(Debug, PartialEq, Eq)]
pub struct FieldRule {
    pub value_type: ValueType,
    pub required: bool,
    /// When set, list elements must match one of these values.
    pub list_values: Option<Vec<String>>,
    pub constraints: FieldConstraints,
    pub allowed_attrs: Vec<String>,
}

/// Type of a field value.
#[derive(Debug, PartialEq, Eq)]
pub enum ValueType {
    Quoted,
    Ident,
    U32,
    I64,
    F64,
    Bool,
    Path,
    List,
    ListOf(Vec<ValueType>),
    MapOf { key: Box<ValueType>, value: Box<ValueType> },
    RefTo(String),
    Inline(String),
    EnumOrQuoted(Vec<String>),
    Loose,
}

impl Default for LabelRequirement {
    fn default() -> (r: Self)
        ensures
            r == LabelRequirement::Optional,
    {
        LabelRequirement::Optional
    }
}

impl Default for Cardinality {
    fn default() -> (r: Self)
        ensures
            r == Cardinality::Many,
    {
        Cardinality::Many
    }
}

impl Default for FieldConstraints {
    fn default() -> (r: Self)
        ensures
            r.default_value is None,
            r.min is None,
            r.max is None,
            r.pattern is None,
            r.required_if@.len() == 0,
            r.forbid_if@.len() == 0,
    {
        FieldConstraints {
            default_value: None,
            min: None,
            max: None,
            pattern: None,
            required_if: Vec::new(),
            forbid_if: Vec::new(),
        }
    }
}

// ---------------------------------------------------------------------------
// Keyed lists
// ---------------------------------------------------------------------------

/// Index of the first entry keyed `k`, or -1 when there is none.
pub open spec fn key_index<V>(s: Seq<(String, V)>, k: Seq<char>) -> int
    decreases s.len(),
{
    if s.len() == 0 {
        -1
    } else if s[0].0@ == k {
        0
    } else {
        let r = key_index(s.drop_first(), k);
        if r < 0 {
            -1
        } else {
            r + 1
        }
    }
}

/// Distinct keys.
pub open spec fn keys_distinct<V>(s: Seq<(String, V)>) -> bool {
    forall|i: int, j: int| 0 <= i < j < s.len() ==> s[i].0@ != s[j].0@
}

pub proof fn lemma_key_index<V>(s: Seq<(String, V)>, k: Seq<char>)
    ensures
        -1 <= key_index(s, k) < s.len(),
        key_index(s, k) >= 0 ==> s[key_index(s, k)].0@ == k,
        forall|j: int| 0 <= j < s.len() && (key_index(s, k) < 0 || j < key_index(s, k)) ==> s[j].0@
            != k,
    decreases s.len(),
{
    if s.len() > 0 && s[0].0@ != k {
        lemma_key_index(s.drop_first(), k);
        assert forall|j: int|
            0 <= j < s.len() && (key_index(s, k) < 0 || j < key_index(s, k)) implies s[j].0@
            != k by {
            if j > 0 {
                assert(s[j] == s.drop_first()[j - 1]);
            }
        }
    }
}

/// `key_index` is the first position holding `k`.
pub proof fn lemma_key_index_at<V>(s: Seq<(String, V)>, k: Seq<char>, i: int)
    requires
        0 <= i < s.len(),
        s[i].0@ == k,
        forall|j: int| 0 <= j < i ==> s[j].0@ != k,
    ensures
        key_index(s, k) == i,
{
    lemma_key_index(s, k);
}

/// No position holds `k`.
pub proof fn lemma_key_index_none<V>(s: Seq<(String, V)>, k: Seq<char>)
    requires
        forall|j: int| 0 <= j < s.len() ==> s[j].0@ != k,
    ensures
        key_index(s, k) == -1,
{
    lemma_key_index(s, k);
}

/// Position of the entry keyed `k` (the first one).
pub fn find_key<V>(s: &Vec<(String, V)>, k: &str) -> (r: Option<usize>)
    ensures
        match r {
            Some(i) => i == key_index(s@, k@),
            None => key_index(s@, k@) == -1,
        },
{
    let mut i: usize = 0;
    while i < s.len()
        invariant
            i <= s@.len(),
            forall|j: int| 0 <= j < i ==> s@[j].0@ != k@,
        decreases s.len() - i,
    {
        if crate::text::str_eq(s[i].0.as_str(), k) {
            proof {
                lemma_key_index_at(s@, k@, i as int);
            }
            return Some(i);
        }
        i = i + 1;
    }
    proof {
        lemma_key_index_none(s@, k@);
    }
    None
}

/// Is `k` one of the texts in `s`?
pub open spec fn has_text(s: Seq<String>, k: Seq<char>) -> bool {
    exists|i: int| 0 <= i < s.len() && #[trigger] s[i]@ == k
}

/// `has_text` is membership among the plain texts.
pub proof fn lemma_has_texts(v: Seq<String>, k: Seq<char>)
    ensures
        has_text(v, k) == crate::schema_view::texts(v).contains(k),
{
    let t = crate::schema_view::texts(v);
    if has_text(v, k) {
        let i = choose|i: int| 0 <= i < v.len() && #[trigger] v[i]@ == k;
        assert(t[i] == k);
    }
    if t.contains(k) {
        let i = choose|i: int| 0 <= i < t.len() && t[i] == k;
        assert(v[i]@ == k);
    }
}

/// Does `s` hold the text `k`?
pub fn contains_text(s: &Vec<String>, k: &str) -> (r: bool)
    ensures
        r == has_text(s@, k@),
{
    let mut i: usize = 0;
    while i < s.len()
        invariant
            i <= s@.len(),
            forall|j: int| 0 <= j < i ==> s@[j]@ != k@,
        decreases s.len() - i,
    {
        if crate::text::str_eq(s[i].as_str(), k) {
            return true;
        }
        i = i + 1;
    }
    false
}

// ---------------------------------------------------------------------------
// Lookups
// ---------------------------------------------------------------------------

/// Does a kind matcher accept `kind`?
pub open spec fn kind_matches(m: KindMatch, kind: Seq<char>) -> bool {
    match m {
        KindMatch::Keyword(k) => k@ == kind,
        KindMatch::Keywords(keys) => has_text(keys@, kind),
        KindMatch::FreeIdent { except } => !has_text(except@, kind),
    }
}

/// Index of the first nested entry whose rule accepts `kind`, or -1.
pub open spec fn nested_match_index(s: Seq<(String, BlockRule)>, kind: Seq<char>) -> int
    decreases s.len(),
{
    if s.len() == 0 {
        -1
    } else if kind_matches(s[0].1.kind_match, kind) {
        0
    } else {
        let r = nested_match_index(s.drop_first(), kind);
        if r < 0 {
            -1
        } else {
            r + 1
        }
    }
}

pub proof fn lemma_nested_match_index(s: Seq<(String, BlockRule)>, kind: Seq<char>)
    ensures
        -1 <= nested_match_index(s, kind) < s.len(),
        nested_match_index(s, kind) >= 0 ==> kind_matches(
            s[nested_match_index(s, kind)].1.kind_match,
            kind,
        ),
        forall|j: int|
            0 <= j < s.len() && (nested_match_index(s, kind) < 0 || j < nested_match_index(s, kind))
                ==> !kind_matches(#[trigger] s[j].1.kind_match, kind),
    decreases s.len(),
{
    if s.len() > 0 && !kind_matches(s[0].1.kind_match, kind) {
        lemma_nested_match_index(s.drop_first(), kind);
        assert forall|j: int|
            0 <= j < s.len() && (nested_match_index(s, kind) < 0 || j < nested_match_index(
                s,
                kind,
            )) implies !kind_matches(#[trigger] s[j].1.kind_match, kind) by {
            if j > 0 {
                assert(s[j] == s.drop_first()[j - 1]);
            }
        }
    }
}

/// The rules named in `order` that exist, in that order (ids without a rule are skipped).
pub open spec fn ordered_rules(rules: Seq<(String, BlockRule)>, order: Seq<String>) -> Seq<int>
    decreases order.len(),
{
    if order.len() == 0 {
        Seq::empty()
    } else {
        let prev = ordered_rules(rules, order.drop_last());
        let i = key_index(rules, order.last()@);
        if i < 0 {
            prev
        } else {
            prev.push(i)
        }
    }
}

impl SchemaProfile {
    /// The rule with id `id`.
    pub fn rule(&self, id: &str) -> (r: Option<&BlockRule>)
        ensures
            match r {
                Some(x) => key_index(self.rules@, id@) >= 0 && *x == self.rules@[key_index(
                    self.rules@,
                    id@,
                )].1,
                None => key_index(self.rules@, id@) == -1,
            },
    {
        proof {
            lemma_key_index(self.rules@, id@);
        }
        match find_key(&self.rules, id) {
            Some(i) => Some(&self.rules[i].1),
            None => None,
        }
    }

    /// Positions in `rules` of the top-level rules, in declaration order.
    pub fn top_level_rules(&self) -> (r: Vec<usize>)
        ensures
            r@.map_values(|i: usize| i as int) == ordered_rules(self.rules@, self.top_level_order@),
            forall|j: int| 0 <= j < r@.len() ==> r@[j] < self.rules@.len(),
    {
        let mut out: Vec<usize> = Vec::new();
        let mut j: usize = 0;
        while j < self.top_level_order.len()
            invariant
                j <= self.top_level_order@.len(),
                out@.map_values(|i: usize| i as int) == ordered_rules(
                    self.rules@,
                    self.top_level_order@.subrange(0, j as int),
                ),
                forall|t: int| 0 <= t < out@.len() ==> out@[t] < self.rules@.len(),
            decreases self.top_level_order.len() - j,
        {
            let ghost pre = self.top_level_order@.subrange(0, j as int);
            let ghost next = self.top_level_order@.subrange(0, j + 1);
            proof {
                assert(next.drop_last() == pre);
                assert(next.last() == self.top_level_order@[j as int]);
                lemma_key_index(self.rules@, next.last()@);
            }
            match find_key(&self.rules, self.top_level_order[j].as_str()) {
                Some(i) => {
                    out.push(i);
                    proof {
                        assert(out@.map_values(|i: usize| i as int) =~= ordered_rules(
                            self.rules@,
                            pre,
                        ).push(i as int));
                    }
                },
                None => {},
            }
            j = j + 1;
        }
        proof {
            assert(self.top_level_order@.subrange(0, j as int) =~= self.top_level_order@);
        }
        out
    }
}

impl KindMatch {
    /// Does this matcher accept `kind`?
    pub fn accepts(&self, kind: &str) -> (r: bool)
        ensures
            r == kind_matches(*self, kind@),
    {
        match self {
            KindMatch::Keyword(k) => crate::text::str_eq(k.as_str(), kind),
            KindMatch::Keywords(keys) => contains_text(keys, kind),
            KindMatch::FreeIdent { except } => !contains_text(except, kind),
        }
    }
}

impl BlockRule {
    /// Does this rule apply to blocks of kind `kind`?
    pub fn matches_kind(&self, kind: &str) -> (r: bool)
        ensures
            r == kind_matches(self.kind_match, kind@),
    {
        self.kind_match.accepts(kind)
    }

    /// The first nested rule that applies to `kind`.
    pub fn nested_rule_for_kind(&self, kind: &str) -> (r: Option<&BlockRule>)
        ensures
            match r {
                Some(x) => nested_match_index(self.nested@, kind@) >= 0 && *x == self.nested@[
                    nested_match_index(self.nested@, kind@)].1,
                None => nested_match_index(self.nested@, kind@) == -1,
            },
    {
        proof {
            lemma_nested_match_index(self.nested@, kind@);
        }
        let mut i: usize = 0;
        while i < self.nested.len()
            invariant
                i <= self.nested@.len(),
                forall|j: int| 0 <= j < i ==> !kind_matches(#[trigger] self.nested@[j].1.kind_match, kind@),
                -1 <= nested_match_index(self.nested@, kind@) < self.nested@.len(),
                nested_match_index(self.nested@, kind@) >= 0 ==> kind_matches(
                    self.nested@[nested_match_index(self.nested@, kind@)].1.kind_match,
                    kind@,
                ),
                forall|j: int|
                    0 <= j < self.nested@.len() && (nested_match_index(self.nested@, kind@) < 0 || j
                        < nested_match_index(self.nested@, kind@)) ==> !kind_matches(
                        #[trigger] self.nested@[j].1.kind_match,
                        kind@,
                    ),
            decreases self.nested.len() - i,
        {
            if self.nested[i].1.matches_kind(kind) {
                return Some(&self.nested[i].1);
            }
            i = i + 1;
        }
        None
    }
}

} // verus!
